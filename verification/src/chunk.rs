//! Voxel chunk: a fixed-volume dense grid of block identifiers plus sparse
//! auxiliary per-voxel data, a dirty flag, and a level-of-detail depth.
//!
//! Every chunk stores the same `CHUNK_VOLUME` voxels regardless of its depth;
//! the depth only widens the world-space spacing each voxel represents
//! (`scale = 2^depth`). Mutating a voxel always marks the chunk dirty; the
//! flag is cleared only once a mesh reflecting the current contents exists.

use vstd::prelude::*;

verus! {

use vstd::arithmetic::power2::{pow2, lemma2_to64, lemma_pow2_strictly_increases};
use vstd::bits::lemma_u32_shl_is_mul;
use crate::block::{BlockId, AIR_ID, STONE_ID, DIRT_ID, GRASS_ID};
use crate::position::{ChunkPos, LocalPos, BlockPos, CHUNK_SIZE, CHUNK_VOLUME};
use crate::position::{lemma_index_round_trip, lemma_index_bijective};

/// Largest supported level-of-detail depth; keeps every scaled coordinate
/// comfortably inside the machine integer ranges.
pub const MAX_LOD_DEPTH: u8 = 10;

/// Number of voxel columns in a chunk: `CHUNK_SIZE` squared.
pub const CHUNK_AREA: usize = 625;

/// World-space spacing of the voxels of a chunk at the given depth.
pub open spec fn scale_spec(depth: u8) -> int {
    pow2(depth as nat) as int
}

/// The world-space voxel spacing `2^depth`.
pub fn scale_of(depth: u8) -> (r: u32)
    requires
        depth <= MAX_LOD_DEPTH,
    ensures
        r == scale_spec(depth),
        1 <= r <= 1024,
{
    proof {
        lemma2_to64();
        if depth < 10 {
            lemma_pow2_strictly_increases(depth as nat, 10);
        }
        lemma_u32_shl_is_mul(1u32, depth as u32);
    }
    1u32 << depth
}

/// Auxiliary per-voxel payload; placeholder variants with no behavior yet.
#[derive(Debug, Clone)]
pub enum BlockEntity {
    Machine,
    MultiblockPart,
    Storage,
}

/// The terrain band a voxel falls in, given its world-space height, the
/// column's terrain height, and the chunk's voxel spacing: stone strictly
/// below `height - 3`, dirt in `[height - 3, height - 1)`, grass in
/// `[height - 1, height + scale]`, air above. The grass band widens with the
/// spacing so coarse chunks still show a continuous surface band.
pub open spec fn terrain_block_spec(world_y: int, height: int, scale: int) -> BlockId {
    if world_y < height - 3 {
        BlockId(STONE_ID)
    } else if world_y < height - 1 {
        BlockId(DIRT_ID)
    } else if world_y <= height + scale {
        BlockId(GRASS_ID)
    } else {
        BlockId(AIR_ID)
    }
}

/// The fixed test pattern: five stone layers, one dirt layer, one grass layer.
pub open spec fn test_block_spec(y: int) -> BlockId {
    if y < 5 {
        BlockId(STONE_ID)
    } else if y == 5 {
        BlockId(DIRT_ID)
    } else if y == 6 {
        BlockId(GRASS_ID)
    } else {
        BlockId(AIR_ID)
    }
}

/// The lazy non-air listing of a voxel grid: the `(position, id)` pairs of all
/// non-air cells, in flat index order.
pub open spec fn non_air_entries(s: Seq<BlockId>) -> Seq<(LocalPos, BlockId)>
    decreases s.len(),
{
    if s.len() == 0 {
        Seq::empty()
    } else {
        let rest = non_air_entries(s.drop_last());
        if s.last().0 == AIR_ID {
            rest
        } else {
            rest.push((LocalPos::from_index_spec(s.len() - 1), s.last()))
        }
    }
}


/// The block [`Chunk::generate_chunk`] stores at flat index `i`.
pub open spec fn terrain_cell_spec(corner_y: int, heights: Seq<i32>, depth: u8, i: int) -> BlockId {
    let p = LocalPos::from_index_spec(i);
    terrain_block_spec(
        corner_y + p.y * scale_spec(depth),
        heights[p.z * CHUNK_SIZE as int + p.x] as int,
        scale_spec(depth),
    )
}

/// The block [`Chunk::test_chunk`] stores at flat index `i`.
pub open spec fn test_cell_spec(i: int) -> BlockId {
    test_block_spec(LocalPos::from_index_spec(i).y as int)
}

/// Dense voxel storage unit: the unit of loading, unloading and meshing.
pub struct Chunk {
    /// Canonical position of this chunk in the chunk grid.
    pub pos: ChunkPos,
    /// Dense voxel grid, indexed by [`LocalPos::index_spec`].
    pub blocks: Vec<BlockId>,
    /// Sparse auxiliary payloads, keyed by local voxel position.
    pub block_entities: Vec<(LocalPos, BlockEntity)>,
    /// Whether the stored voxels changed since the last mesh was produced.
    pub dirty: bool,
    /// Level-of-detail depth; the voxel spacing is `2^depth`.
    pub depth: u8,
}

impl View for Chunk {
    type V = Seq<BlockId>;

    open spec fn view(&self) -> Seq<BlockId> {
        self.blocks@
    }
}

impl Chunk {
    /// A chunk is well formed when its position is canonical, its depth is
    /// supported, and it stores exactly `CHUNK_VOLUME` voxels.
    pub open spec fn wf(self) -> bool {
        &&& self.pos.wf()
        &&& self.depth <= MAX_LOD_DEPTH
        &&& self@.len() == CHUNK_VOLUME
    }

    /// The block stored at a local position.
    pub open spec fn block_at(self, p: LocalPos) -> BlockId {
        self@[p.index_spec()]
    }

    /// A chunk filled with air, already marked dirty.
    pub fn empty(pos: ChunkPos, depth: u8) -> (r: Chunk)
        requires
            pos.wf(),
            depth <= MAX_LOD_DEPTH,
        ensures
            r.wf(),
            r.pos == pos,
            r.depth == depth,
            r.dirty,
            r.block_entities@ =~= Seq::<(LocalPos, BlockEntity)>::empty(),
            forall|i: int| 0 <= i < CHUNK_VOLUME ==> r@[i] == BlockId(AIR_ID),
    {
        let mut blocks: Vec<BlockId> = Vec::new();
        let mut i: usize = 0;
        while i < CHUNK_VOLUME
            invariant
                i <= CHUNK_VOLUME,
                blocks@.len() == i,
                forall|j: int| 0 <= j < i ==> blocks@[j] == BlockId(AIR_ID),
            decreases CHUNK_VOLUME - i,
        {
            blocks.push(BlockId(AIR_ID));
            i = i + 1;
        }
        Chunk { pos, blocks, block_entities: Vec::new(), dirty: true, depth }
    }

    /// The block at a local position; a constant-time array access.
    pub fn get_block(&self, pos: LocalPos) -> (r: BlockId)
        requires
            self.wf(),
            pos.wf(),
        ensures
            r == self.block_at(pos),
    {
        let idx = pos.to_index();
        self.blocks[idx]
    }

    /// Store a block at a local position. Always marks the chunk dirty.
    pub fn set_block(&mut self, pos: LocalPos, block: BlockId)
        requires
            old(self).wf(),
            pos.wf(),
        ensures
            final(self)@ == old(self)@.update(pos.index_spec(), block),
            final(self).block_at(pos) == block,
            final(self).dirty,
            final(self).wf(),
            final(self).pos == old(self).pos,
            final(self).depth == old(self).depth,
            final(self).block_entities == old(self).block_entities,
    {
        let idx = pos.to_index();
        self.blocks[idx] = block;
        self.dirty = true;
    }

    /// Clear the dirty flag; called only once a mesh reflecting the current
    /// contents has been produced.
    pub fn clear_dirty(&mut self)
        ensures
            final(self)@ == old(self)@,
            !final(self).dirty,
            final(self).pos == old(self).pos,
            final(self).depth == old(self).depth,
            final(self).block_entities == old(self).block_entities,
    {
        self.dirty = false;
    }

    /// The finite, restartable listing of `(position, id)` pairs of all
    /// non-air voxels, in flat index order.
    pub fn iter_blocks(&self) -> (r: Vec<(LocalPos, BlockId)>)
        requires
            self.wf(),
        ensures
            r@ == non_air_entries(self@),
    {
        let mut out: Vec<(LocalPos, BlockId)> = Vec::new();
        let mut i: usize = 0;
        while i < CHUNK_VOLUME
            invariant
                self.wf(),
                i <= CHUNK_VOLUME,
                out@ == non_air_entries(self@.take(i as int)),
            decreases CHUNK_VOLUME - i,
        {
            proof {
                assert(self@.take(i + 1).drop_last() =~= self@.take(i as int));
                assert(self@.take(i + 1).last() == self@[i as int]);
            }
            let b = self.blocks[i];
            if b.0 != AIR_ID {
                let p = LocalPos::from_index(i);
                out.push((p, b));
            }
            i = i + 1;
        }
        proof {
            assert(self@.take(CHUNK_VOLUME as int) =~= self@);
        }
        out
    }

    /// Procedurally fill a chunk from per-column terrain heights.
    ///
    /// `heights` carries one terrain height per horizontal voxel column,
    /// indexed by `z * CHUNK_SIZE + x`; the caller samples its height field at
    /// the column's world X/Z, which step by `2^depth` from the chunk's world
    /// origin. Each voxel is banded by [`terrain_block_spec`] against its own
    /// world Y. Generation is a pure function of its inputs: the same inputs
    /// always produce the same voxel grid, and it cannot fail.
    pub fn generate_chunk(pos: ChunkPos, depth: u8, heights: &Vec<i32>) -> (r: Chunk)
        requires
            pos.wf(),
            depth <= MAX_LOD_DEPTH,
            heights@.len() == CHUNK_AREA,
        ensures
            r.wf(),
            r.pos == pos,
            r.depth == depth,
            r.dirty,
            r.block_entities@ =~= Seq::<(LocalPos, BlockEntity)>::empty(),
            forall|p: LocalPos|
                p.wf() ==> #[trigger] r.block_at(p) == terrain_block_spec(
                    pos.to_world_pos_spec().y + p.y * scale_spec(depth),
                    heights@[p.z * CHUNK_SIZE as int + p.x] as int,
                    scale_spec(depth),
                ),
    {
        let corner: BlockPos = pos.to_world_pos();
        let scale: u32 = scale_of(depth);
        let mut blocks: Vec<BlockId> = Vec::new();
        let mut i: usize = 0;
        while i < CHUNK_VOLUME
            invariant
                pos.wf(),
                depth <= MAX_LOD_DEPTH,
                heights@.len() == CHUNK_AREA,
                corner == pos.to_world_pos_spec(),
                corner.wf(),
                scale == scale_spec(depth),
                1 <= scale <= 1024,
                i <= CHUNK_VOLUME,
                blocks@.len() == i,
                forall|j: int|
                    0 <= j < i ==> blocks@[j] == terrain_cell_spec(
                        corner.y as int,
                        heights@,
                        depth,
                        j,
                    ),
            decreases CHUNK_VOLUME - i,
        {
            proof {
                lemma_index_bijective(i as int);
            }
            let local = LocalPos::from_index(i);
            let col: usize = (local.z as usize) * (CHUNK_SIZE as usize) + (local.x as usize);
            let height: i64 = heights[col] as i64;
            proof {
                assert((local.y as i64) * (scale as i64) <= 24 * 1024) by (nonlinear_arith)
                    requires
                        local.y < 25,
                        0 <= scale <= 1024,
                ;
            }
            let world_y: i64 = (corner.y as i64) + (local.y as i64) * (scale as i64);
            let block = if world_y < height - 3 {
                BlockId(STONE_ID)
            } else if world_y < height - 1 {
                BlockId(DIRT_ID)
            } else if world_y <= height + (scale as i64) {
                BlockId(GRASS_ID)
            } else {
                BlockId(AIR_ID)
            };
            blocks.push(block);
            proof {
                assert(block == terrain_cell_spec(corner.y as int, heights@, depth, i as int));
            }
            i = i + 1;
        }
        let r = Chunk { pos, blocks, block_entities: Vec::new(), dirty: true, depth };
        proof {
            assert forall|p: LocalPos| p.wf() implies #[trigger] r.block_at(p)
                == terrain_block_spec(
                pos.to_world_pos_spec().y + p.y * scale_spec(depth),
                heights@[p.z * CHUNK_SIZE as int + p.x] as int,
                scale_spec(depth),
            ) by {
                lemma_index_round_trip(p);
                assert(r@[p.index_spec()] == terrain_cell_spec(
                    corner.y as int,
                    heights@,
                    depth,
                    p.index_spec(),
                ));
            }
        }
        r
    }

    /// A fixed layered test pattern: five stone layers under one dirt and one
    /// grass layer, air above.
    pub fn test_chunk(pos: ChunkPos, depth: u8) -> (r: Chunk)
        requires
            pos.wf(),
            depth <= MAX_LOD_DEPTH,
        ensures
            r.wf(),
            r.pos == pos,
            r.depth == depth,
            r.dirty,
            forall|p: LocalPos|
                p.wf() ==> #[trigger] r.block_at(p) == test_block_spec(p.y as int),
    {
        let mut blocks: Vec<BlockId> = Vec::new();
        let mut i: usize = 0;
        while i < CHUNK_VOLUME
            invariant
                i <= CHUNK_VOLUME,
                blocks@.len() == i,
                forall|j: int| 0 <= j < i ==> blocks@[j] == test_cell_spec(j),
            decreases CHUNK_VOLUME - i,
        {
            proof {
                lemma_index_bijective(i as int);
            }
            let local = LocalPos::from_index(i);
            let block = if local.y < 5 {
                BlockId(STONE_ID)
            } else if local.y == 5 {
                BlockId(DIRT_ID)
            } else if local.y == 6 {
                BlockId(GRASS_ID)
            } else {
                BlockId(AIR_ID)
            };
            blocks.push(block);
            proof {
                assert(block == test_cell_spec(i as int));
            }
            i = i + 1;
        }
        let r = Chunk { pos, blocks, block_entities: Vec::new(), dirty: true, depth };
        proof {
            assert forall|p: LocalPos| p.wf() implies #[trigger] r.block_at(p) == test_block_spec(
                p.y as int,
            ) by {
                lemma_index_round_trip(p);
                assert(r@[p.index_spec()] == test_cell_spec(p.index_spec()));
            }
        }
        r
    }
}

} // verus!
