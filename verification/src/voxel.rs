//! Voxel chunks and their down-sampling for coarse levels of detail.

use vstd::prelude::*;

verus! {

/// Edge length of a chunk, in blocks.
pub const CHUNK_SIZE: usize = 16;

/// Block kinds; the id of a kind is its position in this list.
#[derive(Debug, Clone, Copy, PartialEq, Eq, Structural)]
pub enum BlockType {
    Air,
    Dirt,
    Grass,
    Stone,
    Water,
    Sand,
    Wood,
    Leaf,
    Ore,
    Brick,
    Glass,
    Metal,
    Snow,
    Lava,
    Ice,
    Gravel,
}

/// The id of a block kind, 0 for air up to 15.
pub open spec fn block_id(b: BlockType) -> u8 {
    match b {
        BlockType::Air => 0,
        BlockType::Dirt => 1,
        BlockType::Grass => 2,
        BlockType::Stone => 3,
        BlockType::Water => 4,
        BlockType::Sand => 5,
        BlockType::Wood => 6,
        BlockType::Leaf => 7,
        BlockType::Ore => 8,
        BlockType::Brick => 9,
        BlockType::Glass => 10,
        BlockType::Metal => 11,
        BlockType::Snow => 12,
        BlockType::Lava => 13,
        BlockType::Ice => 14,
        BlockType::Gravel => 15,
    }
}

impl BlockType {
    /// The block's id.
    pub fn to_u8(self) -> (r: u8)
        ensures
            r == block_id(self),
    {
        match self {
            BlockType::Air => 0,
            BlockType::Dirt => 1,
            BlockType::Grass => 2,
            BlockType::Stone => 3,
            BlockType::Water => 4,
            BlockType::Sand => 5,
            BlockType::Wood => 6,
            BlockType::Leaf => 7,
            BlockType::Ore => 8,
            BlockType::Brick => 9,
            BlockType::Glass => 10,
            BlockType::Metal => 11,
            BlockType::Snow => 12,
            BlockType::Lava => 13,
            BlockType::Ice => 14,
            BlockType::Gravel => 15,
        }
    }

    /// The block kind with id `v`; air for an unknown id.
    pub fn from_u8(v: u8) -> (r: BlockType)
        ensures
            v < 16 ==> block_id(r) == v,
            v >= 16 ==> r == BlockType::Air,
    {
        match v {
            1 => BlockType::Dirt,
            2 => BlockType::Grass,
            3 => BlockType::Stone,
            4 => BlockType::Water,
            5 => BlockType::Sand,
            6 => BlockType::Wood,
            7 => BlockType::Leaf,
            8 => BlockType::Ore,
            9 => BlockType::Brick,
            10 => BlockType::Glass,
            11 => BlockType::Metal,
            12 => BlockType::Snow,
            13 => BlockType::Lava,
            14 => BlockType::Ice,
            15 => BlockType::Gravel,
            _ => BlockType::Air,
        }
    }

    /// Every block but air occupies its cell.
    pub fn is_solid(self) -> (r: bool)
        ensures
            r == (self != BlockType::Air),
    {
        match self {
            BlockType::Air => false,
            _ => true,
        }
    }
    /// Whether faces behind this block show through it: water and glass.
    pub fn is_transparent(self) -> (r: bool)
        ensures
            r == spec_is_transparent(self),
    {
        match self {
            BlockType::Water | BlockType::Glass => true,
            _ => false,
        }
    }
}

/// Blocks that faces behind them show through.
pub open spec fn spec_is_transparent(b: BlockType) -> bool {
    b == BlockType::Water || b == BlockType::Glass
}

/// Position of block (x, y, z) in a chunk's storage.
pub open spec fn block_index(x: int, y: int, z: int) -> int {
    y * 256 + z * 16 + x
}

/// A 16 x 16 x 16 cube of blocks.
pub struct VoxelChunk {
    blocks: [BlockType; 4096],
}

impl VoxelChunk {
    /// The block at (x, y, z).
    pub closed spec fn block_at(self, x: int, y: int, z: int) -> BlockType {
        self.blocks@[block_index(x, y, z)]
    }

    /// A chunk of air.
    pub fn new() -> (r: Self)
        ensures
            forall|x: int, y: int, z: int|
                0 <= x < 16 && 0 <= y < 16 && 0 <= z < 16 ==> r.block_at(x, y, z) == BlockType::Air,
    {
        Self::solid(BlockType::Air)
    }

    /// A chunk filled with `block`.
    pub fn solid(block: BlockType) -> (r: Self)
        ensures
            forall|x: int, y: int, z: int|
                0 <= x < 16 && 0 <= y < 16 && 0 <= z < 16 ==> r.block_at(x, y, z) == block,
    {
        let r = VoxelChunk { blocks: [block; 4096] };
        assert forall|x: int, y: int, z: int|
            0 <= x < 16 && 0 <= y < 16 && 0 <= z < 16 implies r.block_at(x, y, z) == block by {
            assert(0 <= block_index(x, y, z) < 4096);
        }
        r
    }

    /// The block at (x, y, z).
    pub fn get(&self, x: usize, y: usize, z: usize) -> (r: BlockType)
        requires
            x < 16 && y < 16 && z < 16,
        ensures
            r == self.block_at(x as int, y as int, z as int),
    {
        self.blocks[y * 256 + z * 16 + x]
    }

    /// Place `block` at (x, y, z).
    pub fn set(&mut self, x: usize, y: usize, z: usize, block: BlockType)
        requires
            x < 16 && y < 16 && z < 16,
        ensures
            final(self).block_at(x as int, y as int, z as int) == block,
            forall|a: int, b: int, c: int|
                0 <= a < 16 && 0 <= b < 16 && 0 <= c < 16 && !(a == x && b == y && c == z)
                    ==> final(self).block_at(a, b, c) == old(self).block_at(a, b, c),
    {
        self.blocks[y * 256 + z * 16 + x] = block;
    }
}

/// Boundary slices of the six neighbouring chunks, 16 x 16 blocks each;
/// `None` where there is no neighbour.
pub struct ChunkNeighbors {
    pub pos_x: Option<[BlockType; 256]>,
    pub neg_x: Option<[BlockType; 256]>,
    pub pos_y: Option<[BlockType; 256]>,
    pub neg_y: Option<[BlockType; 256]>,
    pub pos_z: Option<[BlockType; 256]>,
    pub neg_z: Option<[BlockType; 256]>,
}

impl Default for ChunkNeighbors {
    /// No neighbours on any side.
    fn default() -> (r: Self)
        ensures
            r.pos_x is None && r.neg_x is None && r.pos_y is None,
            r.neg_y is None && r.pos_z is None && r.neg_z is None,
    {
        Self { pos_x: None, neg_x: None, pos_y: None, neg_y: None, pos_z: None, neg_z: None }
    }
}

/// The (x, y, z) of the cell at depth `d` along `axis` and at (u, v)
/// across it: u and v run along y and z for the x axis, along x and z for
/// the y axis, and along x and y for the z axis.
pub open spec fn cell_at(axis: int, d: int, u: int, v: int) -> (int, int, int) {
    if axis == 0 {
        (d, u, v)
    } else if axis == 1 {
        (u, d, v)
    } else {
        (u, v, d)
    }
}

/// The neighbouring chunk's boundary slice on the side of `axis` that
/// `positive` points to.
pub open spec fn boundary_slice(nb: ChunkNeighbors, axis: int, positive: bool) -> Option<[BlockType; 256]> {
    if axis == 0 {
        if positive { nb.pos_x } else { nb.neg_x }
    } else if axis == 1 {
        if positive { nb.pos_y } else { nb.neg_y }
    } else {
        if positive { nb.pos_z } else { nb.neg_z }
    }
}

/// The block a face of cell (d, u, v) looks at: the next cell in the
/// chunk, or past the chunk's edge the neighbour's boundary slice at
/// v * 16 + u, or air where there is no neighbour.
pub open spec fn facing_block(
    chunk: VoxelChunk,
    nb: ChunkNeighbors,
    axis: int,
    positive: bool,
    d: int,
    u: int,
    v: int,
) -> BlockType {
    let nd = if positive { d + 1 } else { d - 1 };
    if 0 <= nd < 16 {
        let (x, y, z) = cell_at(axis, nd, u, v);
        chunk.block_at(x, y, z)
    } else {
        match boundary_slice(nb, axis, positive) {
            Some(sl) => sl@[v * 16 + u],
            None => BlockType::Air,
        }
    }
}

/// The mask entry of cell (d, u, v): its block when it is solid and the
/// block it faces is air or transparent, so that the face shows; air
/// otherwise.
pub open spec fn face_cell(
    chunk: VoxelChunk,
    nb: ChunkNeighbors,
    axis: int,
    positive: bool,
    d: int,
    u: int,
    v: int,
) -> BlockType {
    let (x, y, z) = cell_at(axis, d, u, v);
    let b = chunk.block_at(x, y, z);
    let n = facing_block(chunk, nb, axis, positive, d, u, v);
    if b != BlockType::Air && (n == BlockType::Air || spec_is_transparent(n)) {
        b
    } else {
        BlockType::Air
    }
}

/// Faces on the chunk's edge are culled against the neighbouring chunk's
/// boundary slice, read at v * 16 + u: a solid block on an edge shows its
/// outward face exactly when the slice entry in front of it is air, water
/// or glass; without a neighbour on that side the face always shows.
pub proof fn lemma_edge_faces_follow_the_slice(chunk: VoxelChunk, nb: ChunkNeighbors, u: int, v: int)
    requires
        0 <= u < 16,
        0 <= v < 16,
    ensures
        face_cell(chunk, nb, 0, true, 15, u, v) == edge_rule(chunk.block_at(15, u, v), nb.pos_x, u, v),
        face_cell(chunk, nb, 0, false, 0, u, v) == edge_rule(chunk.block_at(0, u, v), nb.neg_x, u, v),
        face_cell(chunk, nb, 1, true, 15, u, v) == edge_rule(chunk.block_at(u, 15, v), nb.pos_y, u, v),
        face_cell(chunk, nb, 1, false, 0, u, v) == edge_rule(chunk.block_at(u, 0, v), nb.neg_y, u, v),
        face_cell(chunk, nb, 2, true, 15, u, v) == edge_rule(chunk.block_at(u, v, 15), nb.pos_z, u, v),
        face_cell(chunk, nb, 2, false, 0, u, v) == edge_rule(chunk.block_at(u, v, 0), nb.neg_z, u, v),
{
}

/// What an edge block `b` shows towards a neighbour's slice: itself when
/// it is solid and the slice entry at v * 16 + u is air, water or glass (or
/// there is no neighbour), air otherwise.
pub open spec fn edge_rule(b: BlockType, slice: Option<[BlockType; 256]>, u: int, v: int) -> BlockType {
    match slice {
        Some(sl) => {
            let f = sl@[v * 16 + u];
            if b != BlockType::Air && (f == BlockType::Air || f == BlockType::Water || f
                == BlockType::Glass) {
                b
            } else {
                BlockType::Air
            }
        },
        None => b,
    }
}

/// Inside the chunk a face shows exactly when its block is solid and the
/// next block along the axis, in the face's direction, is air, water or
/// glass.  Across the layer, (u, v) run along (y, z) for the x axis, (x, z)
/// for the y axis and (x, y) for the z axis.
pub proof fn lemma_inner_faces_follow_the_chunk(
    chunk: VoxelChunk,
    nb: ChunkNeighbors,
    axis: int,
    positive: bool,
    layer: int,
    u: int,
    v: int,
)
    requires
        0 <= axis < 3,
        0 <= u < 16,
        0 <= v < 16,
        if positive {
            0 <= layer < 15
        } else {
            0 < layer < 16
        },
    ensures
        ({
            let n = if positive {
                layer + 1
            } else {
                layer - 1
            };
            let b = if axis == 0 {
                chunk.block_at(layer, u, v)
            } else if axis == 1 {
                chunk.block_at(u, layer, v)
            } else {
                chunk.block_at(u, v, layer)
            };
            let f = if axis == 0 {
                chunk.block_at(n, u, v)
            } else if axis == 1 {
                chunk.block_at(u, n, v)
            } else {
                chunk.block_at(u, v, n)
            };
            face_cell(chunk, nb, axis, positive, layer, u, v) == if b != BlockType::Air && (f
                == BlockType::Air || f == BlockType::Water || f == BlockType::Glass) {
                b
            } else {
                BlockType::Air
            }
        }),
{
}

fn slice_of(neighbors: &ChunkNeighbors, axis: usize, positive: bool) -> (r: &Option<[BlockType; 256]>)
    ensures
        *r == boundary_slice(*neighbors, axis as int, positive),
{
    if axis == 0 {
        if positive { &neighbors.pos_x } else { &neighbors.neg_x }
    } else if axis == 1 {
        if positive { &neighbors.pos_y } else { &neighbors.neg_y }
    } else {
        if positive { &neighbors.pos_z } else { &neighbors.neg_z }
    }
}

fn chunk_cell(chunk: &VoxelChunk, axis: usize, d: usize, u: usize, v: usize) -> (r: BlockType)
    requires
        d < 16 && u < 16 && v < 16,
    ensures
        r == chunk.block_at(cell_at(axis as int, d as int, u as int, v as int).0,
            cell_at(axis as int, d as int, u as int, v as int).1,
            cell_at(axis as int, d as int, u as int, v as int).2),
{
    if axis == 0 {
        chunk.get(d, u, v)
    } else if axis == 1 {
        chunk.get(u, d, v)
    } else {
        chunk.get(u, v, d)
    }
}

/// Which faces of layer `layer` along `axis` show, facing the positive or
/// the negative direction: row v, column u holds the block of cell
/// (layer, u, v) when that face shows (the block is solid and the block in
/// front of it, in the chunk or in the neighbour's boundary slice, is air
/// or transparent), air otherwise.
pub fn face_mask(
    chunk: &VoxelChunk,
    neighbors: &ChunkNeighbors,
    axis: usize,
    positive: bool,
    layer: usize,
) -> (mask: Vec<Vec<BlockType>>)
    requires
        axis < 3,
        layer < 16,
    ensures
        square_mask(mask@, 16),
        forall|v: int, u: int|
            0 <= v < 16 && 0 <= u < 16 ==> mask_at(mask@, v, u) == face_cell(
                *chunk,
                *neighbors,
                axis as int,
                positive,
                layer as int,
                u,
                v,
            ),
{
    let mut mask: Vec<Vec<BlockType>> = Vec::new();
    let mut v: usize = 0;
    while v < 16
        invariant
            v <= 16,
            axis < 3,
            layer < 16,
            mask@.len() == v,
            forall|r: int| 0 <= r < v ==> (#[trigger] mask@[r])@.len() == 16,
            forall|r: int, c: int|
                0 <= r < v && 0 <= c < 16 ==> mask_at(mask@, r, c) == face_cell(
                    *chunk,
                    *neighbors,
                    axis as int,
                    positive,
                    layer as int,
                    c,
                    r,
                ),
        decreases 16 - v,
    {
        let mut row: Vec<BlockType> = Vec::new();
        let mut u: usize = 0;
        while u < 16
            invariant
                u <= 16,
                v < 16,
                axis < 3,
                layer < 16,
                row@.len() == u,
                forall|c: int|
                    0 <= c < u ==> row@[c] == face_cell(
                        *chunk,
                        *neighbors,
                        axis as int,
                        positive,
                        layer as int,
                        c,
                        v as int,
                    ),
            decreases 16 - u,
        {
            let block = chunk_cell(chunk, axis, layer, u, v);
            let mut shows = false;
            if block.is_solid() {
                let inside = if positive { layer + 1 < 16 } else { layer > 0 };
                let facing = if inside {
                    let nd = if positive { layer + 1 } else { layer - 1 };
                    chunk_cell(chunk, axis, nd, u, v)
                } else {
                    match slice_of(neighbors, axis, positive) {
                        Some(sl) => sl[v * 16 + u],
                        None => BlockType::Air,
                    }
                };
                shows = !facing.is_solid() || facing.is_transparent();
            }
            row.push(if shows { block } else { BlockType::Air });
            u = u + 1;
        }
        let ghost before = mask@;
        let ghost rv = row@;
        mask.push(row);
        assert forall|r: int, c: int|
            0 <= r < v + 1 && 0 <= c < 16 implies mask_at(mask@, r, c) == face_cell(
                *chunk,
                *neighbors,
                axis as int,
                positive,
                layer as int,
                c,
                r,
            ) by {
            if r < v {
                assert(mask@[r] == before[r]);
                assert(mask_at(before, r, c) == face_cell(*chunk, *neighbors, axis as int, positive, layer as int, c, r));
            } else {
                assert(mask@[r]@ == rv);
                assert(rv[c] == face_cell(*chunk, *neighbors, axis as int, positive, layer as int, c, v as int));
            }
        }
        v = v + 1;
    }
    mask
}

// ── Down-sampling ──

/// 1 when the block at (x, y, z) is solid with id `id`, else 0.
pub open spec fn hit(c: VoxelChunk, id: int, x: int, y: int, z: int) -> nat {
    if id != 0 && block_id(c.block_at(x, y, z)) == id {
        1
    } else {
        0
    }
}

/// Solid blocks of id `id` among the first `n` of row (x0.., y, z).
pub open spec fn row_hits(c: VoxelChunk, id: int, x0: int, y: int, z: int, n: int) -> nat
    decreases n,
{
    if n <= 0 {
        0
    } else {
        row_hits(c, id, x0, y, z, n - 1) + hit(c, id, x0 + n - 1, y, z)
    }
}

/// Solid blocks of id `id` among the first `n` rows of length `f` of
/// the slab at height `y` starting at (x0, z0).
pub open spec fn slab_hits(c: VoxelChunk, id: int, x0: int, y: int, z0: int, f: int, n: int) -> nat
    decreases n,
{
    if n <= 0 {
        0
    } else {
        slab_hits(c, id, x0, y, z0, f, n - 1) + row_hits(c, id, x0, y, z0 + n - 1, f)
    }
}

/// Solid blocks of id `id` among the first `n` slabs of the `f`-cube at
/// (x0, y0, z0).
pub open spec fn cube_hits(c: VoxelChunk, id: int, x0: int, y0: int, z0: int, f: int, n: int) -> nat
    decreases n,
{
    if n <= 0 {
        0
    } else {
        cube_hits(c, id, x0, y0, z0, f, n - 1) + slab_hits(c, id, x0, y0 + n - 1, z0, f, f)
    }
}

/// How many solid blocks of each id, 0 to 15, the `f`-cube at grid cell
/// (gx, gy, gz) holds; air is never counted.
pub open spec fn cell_counts(c: VoxelChunk, f: int, gx: int, gy: int, gz: int) -> Seq<int> {
    Seq::new(16, |id: int| cube_hits(c, id, gx * f, gy * f, gz * f, f, f) as int)
}

/// `best` is the first id whose count is the largest: the majority solid
/// block, ties going to the lower id, and 0 (air) when nothing is solid.
pub open spec fn is_majority(counts: Seq<int>, best: int) -> bool {
    &&& 0 <= best < counts.len()
    &&& forall|i: int| 0 <= i < counts.len() ==> counts[i] <= counts[best]
    &&& forall|i: int| 0 <= i < best ==> counts[i] < counts[best]
}

/// The majority block of a cell is one counted most often, and a tie goes
/// to the lowest block id; so every cell has exactly one majority block.
pub proof fn lemma_majority_is_unique(counts: Seq<int>, b1: int, b2: int)
    requires
        is_majority(counts, b1),
        is_majority(counts, b2),
    ensures
        b1 == b2,
        forall|i: int| 0 <= i < counts.len() ==> counts[i] <= counts[b1],
        forall|i: int| 0 <= i < counts.len() && counts[i] == counts[b1] ==> b1 <= i,
{
    if b1 < b2 {
        assert(counts[b1] < counts[b2]);
        assert(counts[b2] <= counts[b1]);
    } else if b2 < b1 {
        assert(counts[b2] < counts[b1]);
        assert(counts[b1] <= counts[b2]);
    }
}

proof fn lemma_air_never_counted(c: VoxelChunk, x0: int, y0: int, z0: int, f: int, n: int)
    ensures
        cube_hits(c, 0, x0, y0, z0, f, n) == 0,
    decreases n,
{
    if n > 0 {
        lemma_air_never_counted(c, x0, y0, z0, f, n - 1);
        lemma_air_slab(c, x0, y0 + n - 1, z0, f, f);
    }
}

proof fn lemma_air_slab(c: VoxelChunk, x0: int, y: int, z0: int, f: int, n: int)
    ensures
        slab_hits(c, 0, x0, y, z0, f, n) == 0,
    decreases n,
{
    if n > 0 {
        lemma_air_slab(c, x0, y, z0, f, n - 1);
        lemma_air_row(c, x0, y, z0 + n - 1, f);
    }
}

proof fn lemma_air_row(c: VoxelChunk, x0: int, y: int, z: int, n: int)
    ensures
        row_hits(c, 0, x0, y, z, n) == 0,
    decreases n,
{
    if n > 0 {
        lemma_air_row(c, x0, y, z, n - 1);
    }
}

proof fn lemma_row_hits_bounded(c: VoxelChunk, id: int, x0: int, y: int, z: int, n: int)
    ensures
        row_hits(c, id, x0, y, z, n) <= if n < 0 { 0 } else { n },
    decreases n,
{
    if n > 0 {
        lemma_row_hits_bounded(c, id, x0, y, z, n - 1);
    }
}

/// Add the hits of row (x0.., y, z) of length `f` to `counts`.
fn add_row_hits(chunk: &VoxelChunk, counts: &mut Vec<u32>, x0: usize, y: usize, z: usize, f: usize)
    requires
        old(counts).len() == 16,
        x0 + f <= 16 && y < 16 && z < 16,
        forall|id: int| 0 <= id < 16 ==> old(counts)[id] <= 4096 - 16,
    ensures
        final(counts).len() == 16,
        forall|id: int| 0 <= id < 16 ==> final(counts)[id] == old(counts)[id] + row_hits(*chunk, id, x0 as int, y as int, z as int, f as int),
        forall|id: int| 0 <= id < 16 ==> final(counts)[id] <= old(counts)[id] + 16,
{
    let mut dx: usize = 0;
    while dx < f
        invariant
            dx <= f,
            x0 + f <= 16 && y < 16 && z < 16,
            counts.len() == 16,
            forall|id: int| 0 <= id < 16 ==> old(counts)[id] <= 4096 - 16,
            forall|id: int| 0 <= id < 16 ==> #[trigger] counts[id] == old(counts)[id] + row_hits(*chunk, id, x0 as int, y as int, z as int, dx as int),
            forall|id: int| 0 <= id < 16 ==> counts[id] <= old(counts)[id] + dx,
        decreases f - dx,
    {
        let b = chunk.get(x0 + dx, y, z);
        let ghost before = counts@;
        if b.is_solid() {
            let k = b.to_u8() as usize;
            let v = counts[k] + 1;
            counts.set(k, v);
        }
        assert forall|id: int| 0 <= id < 16 implies #[trigger] counts[id] == old(counts)[id] + row_hits(*chunk, id, x0 as int, y as int, z as int, dx + 1) by {
            assert(row_hits(*chunk, id, x0 as int, y as int, z as int, dx + 1) == row_hits(*chunk, id, x0 as int, y as int, z as int, dx as int) + hit(*chunk, id, x0 + dx, y as int, z as int));
        }
        dx = dx + 1;
    }
}

/// Add the hits of the slab at height `y` over the `f`-square at (x0, z0).
fn add_slab_hits(chunk: &VoxelChunk, counts: &mut Vec<u32>, x0: usize, y: usize, z0: usize, f: usize)
    requires
        old(counts).len() == 16,
        x0 + f <= 16 && y < 16 && z0 + f <= 16,
        forall|id: int| 0 <= id < 16 ==> old(counts)[id] <= 4096 - 256,
    ensures
        final(counts).len() == 16,
        forall|id: int| 0 <= id < 16 ==> final(counts)[id] == old(counts)[id] + slab_hits(*chunk, id, x0 as int, y as int, z0 as int, f as int, f as int),
        forall|id: int| 0 <= id < 16 ==> final(counts)[id] <= old(counts)[id] + 256,
{
    let mut dz: usize = 0;
    while dz < f
        invariant
            dz <= f,
            x0 + f <= 16 && y < 16 && z0 + f <= 16,
            counts.len() == 16,
            forall|id: int| 0 <= id < 16 ==> old(counts)[id] <= 4096 - 256,
            forall|id: int| 0 <= id < 16 ==> #[trigger] counts[id] == old(counts)[id] + slab_hits(*chunk, id, x0 as int, y as int, z0 as int, f as int, dz as int),
            forall|id: int| 0 <= id < 16 ==> counts[id] <= old(counts)[id] + 16 * dz,
        decreases f - dz,
    {
        add_row_hits(chunk, counts, x0, y, z0 + dz, f);
        dz = dz + 1;
    }
}

/// Per-id counts of the solid blocks of the `f`-cube at (x0, y0, z0).
fn count_cube(chunk: &VoxelChunk, x0: usize, y0: usize, z0: usize, f: usize) -> (counts: Vec<u32>)
    requires
        x0 + f <= 16 && y0 + f <= 16 && z0 + f <= 16,
    ensures
        counts.len() == 16,
        forall|id: int| 0 <= id < 16 ==> counts[id] == cube_hits(*chunk, id, x0 as int, y0 as int, z0 as int, f as int, f as int),
{
    let mut counts: Vec<u32> = Vec::new();
    while counts.len() < 16
        invariant
            counts.len() <= 16,
            forall|id: int| 0 <= id < counts.len() ==> counts[id] == 0,
        decreases 16 - counts.len(),
    {
        counts.push(0);
    }
    let mut dy: usize = 0;
    while dy < f
        invariant
            dy <= f,
            x0 + f <= 16 && y0 + f <= 16 && z0 + f <= 16,
            counts.len() == 16,
            forall|id: int| 0 <= id < 16 ==> #[trigger] counts[id] == cube_hits(*chunk, id, x0 as int, y0 as int, z0 as int, f as int, dy as int),
            forall|id: int| 0 <= id < 16 ==> counts[id] <= 256 * dy,
        decreases f - dy,
    {
        add_slab_hits(chunk, &mut counts, x0, y0 + dy, z0, f);
        dy = dy + 1;
    }
    counts
}

/// The first id with the largest count.
fn pick_majority(counts: &Vec<u32>) -> (best: u8)
    requires
        counts.len() == 16,
        counts[0] == 0,
    ensures
        is_majority(counts@.map_values(|v: u32| v as int), best as int),
{
    let ghost cs = counts@.map_values(|v: u32| v as int);
    let mut best: u8 = 0;
    let mut best_count: u32 = 0;
    let mut i: usize = 0;
    while i < 16
        invariant
            i <= 16,
            counts.len() == 16,
            counts[0] == 0,
            cs == counts@.map_values(|v: u32| v as int),
            (best as int) < 16,
            (best as int) < i || best == 0,
            best_count == counts[best as int],
            forall|j: int| 0 <= j < i ==> counts[j] <= best_count,
            forall|j: int| 0 <= j < best ==> counts[j] < best_count,
        decreases 16 - i,
    {
        if counts[i] > best_count {
            best_count = counts[i];
            best = i as u8;
        }
        i = i + 1;
    }
    best
}

/// The grid cell that the `i`-th down-sampled block stands for, in a grid
/// of `size` cells per edge: (i mod size, i / size^2, (i / size) mod size)
/// as (x, y, z).
pub open spec fn cell_of(i: int, size: int) -> (int, int, int) {
    (i % size, i / (size * size), (i / size) % size)
}

proof fn lemma_cell_in_grid(i: int, size: int, f: int)
    requires
        0 < f,
        size == 16int / f,
        0 <= i < size * size * size,
    ensures
        size > 0,
        0 <= cell_of(i, size).0 < size,
        0 <= cell_of(i, size).1 < size,
        0 <= cell_of(i, size).2 < size,
        (cell_of(i, size).0 + 1) * f <= 16,
        (cell_of(i, size).1 + 1) * f <= 16,
        (cell_of(i, size).2 + 1) * f <= 16,
{
    assert(size > 0) by (nonlinear_arith)
        requires
            0 <= i < size * size * size,
    ;
    vstd::arithmetic::div_mod::lemma_fundamental_div_mod(16, f);
    assert(size * f <= 16) by (nonlinear_arith)
        requires
            16 == f * size + 16int % f,
            0 <= 16int % f,
    ;
    let (x, y, z) = cell_of(i, size);
    assert(0 <= x < size) by {
        vstd::arithmetic::div_mod::lemma_mod_pos_bound(i, size);
    }
    assert(0 <= i / size) by {
        vstd::arithmetic::div_mod::lemma_div_pos_is_pos(i, size);
    }
    assert(0 <= z < size) by {
        vstd::arithmetic::div_mod::lemma_mod_pos_bound(i / size, size);
    }
    assert(0 <= y < size) by {
        vstd::arithmetic::mul::lemma_mul_strictly_positive(size, size);
        vstd::arithmetic::div_mod::lemma_div_pos_is_pos(i, size * size);
        vstd::arithmetic::div_mod::lemma_fundamental_div_mod(i, size * size);
        vstd::arithmetic::div_mod::lemma_mod_pos_bound(i, size * size);
        let ss = size * size;
        let q = i / ss;
        assert(q < size) by (nonlinear_arith)
            requires
                ss > 0,
                i == ss * q + i % ss,
                0 <= i % ss,
                i < ss * size,
        ;
    }
    assert((x + 1) * f <= 16) by (nonlinear_arith)
        requires
            0 <= x < size,
            size * f <= 16,
            0 < f,
    ;
    assert((y + 1) * f <= 16) by (nonlinear_arith)
        requires
            0 <= y < size,
            size * f <= 16,
            0 < f,
    ;
    assert((z + 1) * f <= 16) by (nonlinear_arith)
        requires
            0 <= z < size,
            size * f <= 16,
            0 < f,
    ;
}

/// Down-sample a chunk by `factor` (2 or 4 in use) by majority vote over
/// each `factor`-cube: returns the block id of every cell of the reduced
/// grid, flattened y, then z, then x, and the reduced grid's edge length.
pub fn downsample_majority(chunk: &VoxelChunk, factor: usize) -> (r: (Vec<u8>, usize))
    requires
        factor > 0,
    ensures
        r.1 == 16usize / factor,
        r.0@.len() == r.1 * r.1 * r.1,
        forall|i: int|
            0 <= i < r.0@.len() ==> is_majority(
                cell_counts(*chunk, factor as int, cell_of(i, r.1 as int).0, cell_of(i, r.1 as int).1, cell_of(i, r.1 as int).2),
                #[trigger] r.0@[i] as int,
            ),
{
    let size = CHUNK_SIZE / factor;
    assert(size <= 16);
    assert(size * size <= 256 && size * size * size <= 4096) by (nonlinear_arith)
        requires
            size <= 16,
    ;
    let total = size * size * size;
    let mut data: Vec<u8> = Vec::new();
    let mut i: usize = 0;
    while i < total
        invariant
            0 < factor,
            size == 16usize / factor,
            size <= 16,
            size * size <= 256,
            total == size * size * size,
            i <= total,
            data@.len() == i,
            forall|j: int|
                0 <= j < i ==> is_majority(
                    cell_counts(*chunk, factor as int, cell_of(j, size as int).0, cell_of(j, size as int).1, cell_of(j, size as int).2),
                    #[trigger] data@[j] as int,
                ),
        decreases total - i,
    {
        proof { lemma_cell_in_grid(i as int, size as int, factor as int); }
        let gx = i % size;
        let gy = i / (size * size);
        let gz = (i / size) % size;
        assert((gx + 1) * factor == gx * factor + factor) by (nonlinear_arith);
        assert((gy + 1) * factor == gy * factor + factor) by (nonlinear_arith);
        assert((gz + 1) * factor == gz * factor + factor) by (nonlinear_arith);
        let counts = count_cube(chunk, gx * factor, gy * factor, gz * factor, factor);
        proof { lemma_air_never_counted(*chunk, (gx * factor) as int, (gy * factor) as int, (gz * factor) as int, factor as int, factor as int); }
        let best = pick_majority(&counts);
        proof {
            let cc = cell_counts(*chunk, factor as int, gx as int, gy as int, gz as int);
            assert(cc =~= counts@.map_values(|v: u32| v as int));
        }
        data.push(best);
        i = i + 1;
    }
    (data, size)
}

// ── Greedy merging ──

/// A rectangle of one block kind in a face mask: columns `u..u + w` of
/// rows `v..v + h`.
#[derive(Debug, Clone, Copy, PartialEq, Eq, Structural)]
pub struct GreedyQuad {
    pub u: usize,
    pub v: usize,
    pub w: usize,
    pub h: usize,
    pub block: BlockType,
}

/// The block at row `v`, column `u` of a mask.
pub open spec fn mask_at(mask: Seq<Vec<BlockType>>, v: int, u: int) -> BlockType {
    mask[v]@[u]
}

/// A `size` x `size` mask.
pub open spec fn square_mask(mask: Seq<Vec<BlockType>>, size: int) -> bool {
    &&& mask.len() == size
    &&& forall|r: int| 0 <= r < size ==> (#[trigger] mask[r])@.len() == size
}

/// Whether cell (v, u) lies in `q`.
pub open spec fn in_quad(q: GreedyQuad, v: int, u: int) -> bool {
    q.v <= v < q.v + q.h && q.u <= u < q.u + q.w
}

/// Whether one of `qs` covers cell (v, u).
pub open spec fn covered(qs: Seq<GreedyQuad>, v: int, u: int) -> bool {
    exists|k: int| 0 <= k < qs.len() && in_quad(#[trigger] qs[k], v, u)
}

/// A solid cell that `qs` leaves uncovered.
pub open spec fn open_cell(mask: Seq<Vec<BlockType>>, qs: Seq<GreedyQuad>, v: int, u: int) -> bool {
    mask_at(mask, v, u) != BlockType::Air && !covered(qs, v, u)
}

/// Cell (v, u) comes before cell (v2, u2) row by row.
pub open spec fn before(v: int, u: int, v2: int, u2: int) -> bool {
    v < v2 || (v == v2 && u < u2)
}

/// `q` is the rectangle the greedy merge takes after `done`: it starts at
/// the first open cell row by row, stretches right as far as open cells of
/// its block go, then down as far as whole rows of that width do.
pub open spec fn is_greedy_quad(mask: Seq<Vec<BlockType>>, size: int, done: Seq<GreedyQuad>, q: GreedyQuad) -> bool {
    &&& 1 <= q.w && q.u + q.w <= size
    &&& 1 <= q.h && q.v + q.h <= size
    &&& q.block != BlockType::Air
    &&& forall|v: int, u: int|
        in_quad(q, v, u) ==> mask_at(mask, v, u) == q.block && !covered(done, v, u)
    &&& forall|v: int, u: int|
        0 <= v < size && 0 <= u < size && before(v, u, q.v as int, q.u as int) ==> !open_cell(
            mask,
            done,
            v,
            u,
        )
    &&& q.u + q.w == size || mask_at(mask, q.v as int, q.u + q.w) != q.block || covered(
        done,
        q.v as int,
        q.u + q.w,
    )
    &&& q.v + q.h == size || exists|c: int| q.u <= c < q.u + q.w && #[trigger] blocks_growth(mask, done, q, c)
}

/// Column `c` of the row below `q` stops `q` from growing down.
pub open spec fn blocks_growth(mask: Seq<Vec<BlockType>>, done: Seq<GreedyQuad>, q: GreedyQuad, c: int) -> bool {
    mask_at(mask, q.v + q.h, c) != q.block || covered(done, q.v + q.h, c)
}

/// Cell (r, c) holds `block` and is not yet merged.
pub open spec fn cell_fits(mask: Seq<Vec<BlockType>>, visited: Seq<Vec<bool>>, r: int, c: int, block: BlockType) -> bool {
    mask_at(mask, r, c) == block && !visited[r]@[c]
}

/// `qs` is what the greedy merge makes of the mask: each rectangle is the
/// greedy choice after the ones before it, and no solid cell is left open.
pub open spec fn is_greedy_cover(mask: Seq<Vec<BlockType>>, size: int, qs: Seq<GreedyQuad>) -> bool {
    &&& forall|k: int| 0 <= k < qs.len() ==> is_greedy_quad(mask, size, qs.take(k), #[trigger] qs[k])
    &&& forall|v: int, u: int| 0 <= v < size && 0 <= u < size ==> !open_cell(mask, qs, v, u)
}

proof fn lemma_covered_push(qs: Seq<GreedyQuad>, q: GreedyQuad, v: int, u: int)
    ensures
        covered(qs.push(q), v, u) <==> covered(qs, v, u) || in_quad(q, v, u),
{
    let t = qs.push(q);
    if covered(qs, v, u) {
        let k = choose|k: int| 0 <= k < qs.len() && in_quad(#[trigger] qs[k], v, u);
        assert(t[k] == qs[k]);
    }
    if in_quad(q, v, u) {
        assert(t[qs.len() as int] == q);
    }
    if covered(t, v, u) {
        let k = choose|k: int| 0 <= k < t.len() && in_quad(#[trigger] t[k], v, u);
        if k < qs.len() {
            assert(t[k] == qs[k]);
        }
    }
}

/// Whether cells `u..u + w` of row `r` all hold `block` and are unvisited.
fn row_fits(
    mask: &Vec<Vec<BlockType>>,
    visited: &Vec<Vec<bool>>,
    size: usize,
    r: usize,
    u: usize,
    w: usize,
    block: BlockType,
) -> (ok: bool)
    requires
        square_mask(mask@, size as int),
        square_mask_bool(visited@, size as int),
        r < size,
        u + w <= size,
    ensures
        ok == forall|c: int| u <= c < u + w ==> #[trigger] cell_fits(mask@, visited@, r as int, c, block),
{
    let mut du: usize = 0;
    while du < w
        invariant
            du <= w,
            square_mask(mask@, size as int),
            square_mask_bool(visited@, size as int),
            r < size,
            u + w <= size,
            forall|c: int| u <= c < u + du ==> #[trigger] cell_fits(mask@, visited@, r as int, c, block),
        decreases w - du,
    {
        if mask[r][u + du] != block || visited[r][u + du] {
            assert(!cell_fits(mask@, visited@, r as int, (u + du) as int, block));
            return false;
        }
        du = du + 1;
    }
    true
}

/// A `size` x `size` grid of flags.
pub open spec fn square_mask_bool(m: Seq<Vec<bool>>, size: int) -> bool {
    &&& m.len() == size
    &&& forall|r: int| 0 <= r < size ==> (#[trigger] m[r])@.len() == size
}

/// Merge the solid cells of a `size` x `size` face mask into rectangles
/// of one block kind each, greedily: scanning row by row, each cell not yet
/// merged starts a rectangle as wide, then as tall, as same-kind unmerged
/// cells allow.  Returns the rectangles in the order they are made.
pub fn greedy_quads(mask: &Vec<Vec<BlockType>>, size: usize) -> (qs: Vec<GreedyQuad>)
    requires
        square_mask(mask@, size as int),
    ensures
        is_greedy_cover(mask@, size as int, qs@),
{
    let mut visited: Vec<Vec<bool>> = Vec::new();
    while visited.len() < size
        invariant
            visited.len() <= size,
            forall|r: int| 0 <= r < visited.len() ==> (#[trigger] visited@[r])@.len() == size,
            forall|r: int, c: int| 0 <= r < visited.len() && 0 <= c < size ==> !(#[trigger] visited@[r]@[c]),
        decreases size - visited.len(),
    {
        let mut row: Vec<bool> = Vec::new();
        while row.len() < size
            invariant
                row.len() <= size,
                forall|c: int| 0 <= c < row.len() ==> !(#[trigger] row@[c]),
            decreases size - row.len(),
        {
            row.push(false);
        }
        visited.push(row);
    }
    let mut qs: Vec<GreedyQuad> = Vec::new();
    let mut v: usize = 0;
    while v < size
        invariant
            v <= size,
            square_mask(mask@, size as int),
            square_mask_bool(visited@, size as int),
            forall|r: int, c: int|
                0 <= r < size && 0 <= c < size ==> (#[trigger] visited@[r]@[c] <==> covered(qs@, r, c)),
            forall|k: int| 0 <= k < qs@.len() ==> is_greedy_quad(mask@, size as int, qs@.take(k), #[trigger] qs@[k]),
            forall|r: int, c: int|
                0 <= r < size && 0 <= c < size && before(r, c, v as int, 0) ==> !open_cell(mask@, qs@, r, c),
        decreases size - v,
    {
        let mut u: usize = 0;
        while u < size
            invariant
                v < size,
                u <= size,
                square_mask(mask@, size as int),
                square_mask_bool(visited@, size as int),
                forall|r: int, c: int|
                    0 <= r < size && 0 <= c < size ==> (#[trigger] visited@[r]@[c] <==> covered(qs@, r, c)),
                forall|k: int| 0 <= k < qs@.len() ==> is_greedy_quad(mask@, size as int, qs@.take(k), #[trigger] qs@[k]),
                forall|r: int, c: int|
                    0 <= r < size && 0 <= c < size && before(r, c, v as int, u as int) ==> !open_cell(mask@, qs@, r, c),
            decreases size - u,
        {
            if !visited[v][u] && mask[v][u] != BlockType::Air {
                let block = mask[v][u];
                // stretch right
                let mut w: usize = 1;
                while u + w < size && mask[v][u + w] == block && !visited[v][u + w]
                    invariant
                        v < size,
                        u < size,
                        1 <= w,
                        u + w <= size,
                        square_mask(mask@, size as int),
                        square_mask_bool(visited@, size as int),
                        forall|c: int| u <= c < u + w ==> #[trigger] cell_fits(mask@, visited@, v as int, c, block),
                    decreases size - u - w,
                {
                    w = w + 1;
                }
                // stretch down
                let mut h: usize = 1;
                while v + h < size && row_fits(mask, &visited, size, v + h, u, w, block)
                    invariant
                        v < size,
                        u + w <= size,
                        1 <= w,
                        1 <= h,
                        v + h <= size,
                        square_mask(mask@, size as int),
                        square_mask_bool(visited@, size as int),
                        forall|r: int, c: int|
                            v <= r < v + h && u <= c < u + w ==> #[trigger] cell_fits(mask@, visited@, r, c, block),
                    decreases size - v - h,
                {
                    h = h + 1;
                }
                let q = GreedyQuad { u, v, w, h, block };
                proof {
                    let done = qs@;
                    assert forall|r: int, c: int| in_quad(q, r, c) implies mask_at(mask@, r, c) == q.block && !covered(done, r, c) by {
                        assert(cell_fits(mask@, visited@, r, c, block));
                    }
                    if !(u + w == size) {
                        if mask_at(mask@, v as int, u + w) == block {
                            assert(visited@[v as int]@[u + w]);
                        }
                    }
                    if !(v + h == size) {
                        let r = v + h;
                        let c = choose|c: int| !(u <= c < u + w ==> #[trigger] cell_fits(mask@, visited@, r as int, c, block));
                        assert(u <= c < u + w && blocks_growth(mask@, done, q, c));
                    }
                    assert(is_greedy_quad(mask@, size as int, done, q));
                }
                // mark the rectangle
                let ghost vis0 = visited@;
                let mut dv: usize = 0;
                while dv < h
                    invariant
                        dv <= h,
                        v + h <= size,
                        u + w <= size,
                        square_mask_bool(visited@, size as int),
                        square_mask_bool(vis0, size as int),
                        forall|r: int, c: int|
                            0 <= r < size && 0 <= c < size ==> (#[trigger] visited@[r]@[c] <==> (vis0[r]@[c] || (v <= r < v + dv && u <= c < u + w))),
                    decreases h - dv,
                {
                    let mut du: usize = 0;
                    while du < w
                        invariant
                            dv < h,
                            du <= w,
                            v + h <= size,
                            u + w <= size,
                            square_mask_bool(visited@, size as int),
                            square_mask_bool(vis0, size as int),
                            forall|r: int, c: int|
                                0 <= r < size && 0 <= c < size ==> (#[trigger] visited@[r]@[c] <==> (vis0[r]@[c] || (v <= r < v + dv && u <= c < u + w) || (r == v + dv && u <= c < u + du))),
                        decreases w - du,
                    {
                        visited[v + dv][u + du] = true;
                        du = du + 1;
                    }
                    dv = dv + 1;
                }
                let ghost done = qs@;
                qs.push(q);
                proof {
                    assert forall|r: int, c: int| 0 <= r < size && 0 <= c < size implies (#[trigger] visited@[r]@[c] <==> covered(qs@, r, c)) by {
                        lemma_covered_push(done, q, r, c);
                    }
                    assert forall|k: int| 0 <= k < qs@.len() implies is_greedy_quad(mask@, size as int, qs@.take(k), #[trigger] qs@[k]) by {
                        if k < done.len() {
                            assert(qs@.take(k) =~= done.take(k));
                        } else {
                            assert(qs@.take(k) =~= done);
                        }
                    }
                    assert forall|r: int, c: int|
                        0 <= r < size && 0 <= c < size && before(r, c, v as int, u + 1) implies !open_cell(mask@, qs@, r, c) by {
                        lemma_covered_push(done, q, r, c);
                        if before(r, c, v as int, u as int) {
                            assert(!open_cell(mask@, done, r, c));
                        } else {
                            assert(r == v && c == u);
                            assert(in_quad(q, r, c));
                        }
                    }
                }
            } else {
                proof {
                    assert(visited@[v as int]@[u as int] <==> covered(qs@, v as int, u as int));
                    assert forall|r: int, c: int|
                        0 <= r < size && 0 <= c < size && before(r, c, v as int, u + 1) implies !open_cell(mask@, qs@, r, c) by {
                        if !before(r, c, v as int, u as int) {
                            assert(r == v && c == u);
                        }
                    }
                }
            }
            u = u + 1;
        }
        assert forall|r: int, c: int|
            0 <= r < size && 0 <= c < size && before(r, c, v + 1, 0) implies !open_cell(mask@, qs@, r, c) by {
            assert(before(r, c, v as int, size as int));
        }
        v = v + 1;
    }
    assert forall|r: int, c: int| 0 <= r < size && 0 <= c < size implies !open_cell(mask@, qs@, r, c) by {
        assert(before(r, c, size as int, 0));
    }
    qs
}

/// The greedy merge partitions the solid cells: every rectangle lies in
/// the grid and holds only its own (solid) block, no two rectangles share
/// a cell, and every solid cell lies in one of them.
pub proof fn lemma_greedy_cover_partitions(mask: Seq<Vec<BlockType>>, size: int, qs: Seq<GreedyQuad>)
    requires
        is_greedy_cover(mask, size, qs),
    ensures
        forall|k: int, v: int, u: int|
            0 <= k < qs.len() && #[trigger] in_quad(qs[k], v, u) ==> 0 <= v < size && 0 <= u < size
                && mask_at(mask, v, u) == qs[k].block && qs[k].block != BlockType::Air,
        forall|k1: int, k2: int, v: int, u: int|
            0 <= k1 < k2 < qs.len() && #[trigger] in_quad(qs[k1], v, u) ==> !#[trigger] in_quad(qs[k2], v, u),
        forall|v: int, u: int|
            0 <= v < size && 0 <= u < size && mask_at(mask, v, u) != BlockType::Air ==> covered(qs, v, u),
{
    assert forall|k1: int, k2: int, v: int, u: int|
        0 <= k1 < k2 < qs.len() && #[trigger] in_quad(qs[k1], v, u) implies !#[trigger] in_quad(qs[k2], v, u) by {
        assert(is_greedy_quad(mask, size, qs.take(k2), qs[k2]));
        assert(qs.take(k2)[k1] == qs[k1]);
        if in_quad(qs[k2], v, u) {
            assert(covered(qs.take(k2), v, u));
        }
    }
    assert forall|v: int, u: int|
        0 <= v < size && 0 <= u < size && mask_at(mask, v, u) != BlockType::Air implies covered(qs, v, u) by {
        assert(!open_cell(mask, qs, v, u));
    }
    assert forall|k: int, v: int, u: int|
        0 <= k < qs.len() && #[trigger] in_quad(qs[k], v, u) implies 0 <= v < size && 0 <= u < size
            && mask_at(mask, v, u) == qs[k].block && qs[k].block != BlockType::Air by {
        assert(is_greedy_quad(mask, size, qs.take(k), qs[k]));
    }
}

/// After the same rectangles, the greedy choice of the next one is unique.
proof fn lemma_greedy_quad_unique(
    mask: Seq<Vec<BlockType>>,
    size: int,
    done: Seq<GreedyQuad>,
    a: GreedyQuad,
    b: GreedyQuad,
)
    requires
        is_greedy_quad(mask, size, done, a),
        is_greedy_quad(mask, size, done, b),
    ensures
        a == b,
{
    // the origin is the first open cell
    assert(in_quad(a, a.v as int, a.u as int));
    assert(in_quad(b, b.v as int, b.u as int));
    assert(open_cell(mask, done, a.v as int, a.u as int));
    assert(open_cell(mask, done, b.v as int, b.u as int));
    if before(a.v as int, a.u as int, b.v as int, b.u as int) {
        assert(!open_cell(mask, done, a.v as int, a.u as int));
    }
    if before(b.v as int, b.u as int, a.v as int, a.u as int) {
        assert(!open_cell(mask, done, b.v as int, b.u as int));
    }
    assert(a.v == b.v && a.u == b.u);
    assert(a.block == b.block);
    // the width is as large as the row allows
    if a.w < b.w {
        assert(in_quad(b, b.v as int, a.u + a.w));
    }
    if b.w < a.w {
        assert(in_quad(a, a.v as int, b.u + b.w));
    }
    assert(a.w == b.w);
    // the height is as large as whole rows allow
    if a.h < b.h {
        let c = choose|c: int| a.u <= c < a.u + a.w && #[trigger] blocks_growth(mask, done, a, c);
        assert(in_quad(b, a.v + a.h, c));
    }
    if b.h < a.h {
        let c = choose|c: int| b.u <= c < b.u + b.w && #[trigger] blocks_growth(mask, done, b, c);
        assert(in_quad(a, b.v + b.h, c));
    }
    assert(a.h == b.h);
}

proof fn lemma_greedy_prefixes_agree(
    mask: Seq<Vec<BlockType>>,
    size: int,
    qs1: Seq<GreedyQuad>,
    qs2: Seq<GreedyQuad>,
    k: int,
)
    requires
        is_greedy_cover(mask, size, qs1),
        is_greedy_cover(mask, size, qs2),
        0 <= k <= qs1.len(),
        k <= qs2.len(),
    ensures
        qs1.take(k) == qs2.take(k),
    decreases k,
{
    if k > 0 {
        lemma_greedy_prefixes_agree(mask, size, qs1, qs2, k - 1);
        assert(is_greedy_quad(mask, size, qs1.take(k - 1), qs1[k - 1]));
        assert(is_greedy_quad(mask, size, qs2.take(k - 1), qs2[k - 1]));
        lemma_greedy_quad_unique(mask, size, qs1.take(k - 1), qs1[k - 1], qs2[k - 1]);
        assert(qs1.take(k) =~= qs1.take(k - 1).push(qs1[k - 1]));
        assert(qs2.take(k) =~= qs2.take(k - 1).push(qs2[k - 1]));
    }
}

/// A mask has exactly one greedy cover: the merge's result is determined
/// by the mask alone.
pub proof fn lemma_greedy_cover_unique(
    mask: Seq<Vec<BlockType>>,
    size: int,
    qs1: Seq<GreedyQuad>,
    qs2: Seq<GreedyQuad>,
)
    requires
        is_greedy_cover(mask, size, qs1),
        is_greedy_cover(mask, size, qs2),
    ensures
        qs1 == qs2,
{
    let n: int = if qs1.len() < qs2.len() { qs1.len() as int } else { qs2.len() as int };
    lemma_greedy_prefixes_agree(mask, size, qs1, qs2, n);
    if qs1.len() < qs2.len() {
        assert(qs1.take(n) =~= qs1);
        let q = qs2[n as int];
        assert(is_greedy_quad(mask, size, qs2.take(n), q));
        assert(in_quad(q, q.v as int, q.u as int));
        assert(!open_cell(mask, qs1, q.v as int, q.u as int));
    }
    if qs2.len() < qs1.len() {
        assert(qs2.take(n) =~= qs2);
        let q = qs1[n as int];
        assert(is_greedy_quad(mask, size, qs1.take(n), q));
        assert(in_quad(q, q.v as int, q.u as int));
        assert(!open_cell(mask, qs2, q.v as int, q.u as int));
    }
    assert(qs1.take(n) =~= qs1);
    assert(qs2.take(n) =~= qs2);
}

} // verus!
