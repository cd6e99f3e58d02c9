//! Coordinate system: canonical wrapped/clamped positions and the conversions
//! between world space, chunk space, and local voxel space.
//!
//! The world is a horizontal torus: X and Z coordinates wrap modulo
//! [`WORLD_SIZE`], while Y is clamped to a fixed vertical range. Every
//! constructor returns a canonicalized value, so wrapping and clamping happen
//! exactly once, at construction.

use vstd::prelude::*;

verus! {

use vstd::arithmetic::div_mod::{
    lemma_fundamental_div_mod,
    lemma_fundamental_div_mod_converse_div,
    lemma_fundamental_div_mod_converse_mod,
    lemma_hoist_over_denominator,
    lemma_mod_bound,
    lemma_mod_multiples_vanish,
    lemma_small_mod,
};

/// Horizontal span of the world, in coordinate units; X and Z wrap modulo this span.
pub const WORLD_SIZE: i32 = 1000;

/// Half of [`WORLD_SIZE`]: canonical horizontal coordinates lie in `[-HALF_WORLD, HALF_WORLD)`.
pub const HALF_WORLD: i32 = 500;

/// Edge length of a chunk, in voxels.
pub const CHUNK_SIZE: u8 = 25;

/// Edge length of a chunk as an `i32`, for coordinate arithmetic.
pub const CHUNK_SIZE_I32: i32 = 25;

/// Number of voxels a chunk stores: `CHUNK_SIZE` cubed.
pub const CHUNK_VOLUME: usize = 15625;

/// Lowest canonical chunk Y coordinate.
pub const CHUNK_Y_MIN: i32 = -20;

/// Highest canonical chunk Y coordinate.
pub const CHUNK_Y_MAX: i32 = 19;

/// Lowest canonical block Y coordinate.
pub const BLOCK_Y_MIN: i32 = -500;

/// Highest canonical block Y coordinate.
pub const BLOCK_Y_MAX: i32 = 499;

/// Canonical wrap of a horizontal coordinate into `[-HALF_WORLD, HALF_WORLD)`,
/// by Euclidean (floor) modulo, so negative inputs wrap correctly.
pub open spec fn wrap_spec(c: int) -> int {
    (c + HALF_WORLD) % (WORLD_SIZE as int) - HALF_WORLD
}

/// Clamp of a coordinate into `[lo, hi]`.
pub open spec fn clamp_spec(c: int, lo: int, hi: int) -> int {
    if c < lo {
        lo
    } else if c > hi {
        hi
    } else {
        c
    }
}

/// The wrapped coordinate lies in the canonical half-open range.
pub proof fn lemma_wrap_in_range(c: int)
    ensures
        -HALF_WORLD <= wrap_spec(c) < HALF_WORLD,
{
    lemma_mod_bound(c + HALF_WORLD, WORLD_SIZE as int);
}

/// Wrapping is periodic with period [`WORLD_SIZE`]: coordinates one full span
/// apart denote the same location.
pub proof fn lemma_wrap_periodic(c: int)
    ensures
        wrap_spec(c + WORLD_SIZE) == wrap_spec(c),
{
    lemma_mod_multiples_vanish(1, c + HALF_WORLD, WORLD_SIZE as int);
}

/// A coordinate already in the canonical range wraps to itself.
pub proof fn lemma_wrap_identity(c: int)
    requires
        -HALF_WORLD <= c < HALF_WORLD,
    ensures
        wrap_spec(c) == c,
{
    lemma_small_mod((c + HALF_WORLD) as nat, WORLD_SIZE as nat);
}

/// Wrap a horizontal coordinate into the canonical range `[-HALF_WORLD, HALF_WORLD)`.
/// All integer inputs are accepted and folded into range.
pub fn wrap_horizontal(coord: i32) -> (r: i32)
    ensures
        r == wrap_spec(coord as int),
        -HALF_WORLD <= r < HALF_WORLD,
{
    // Shift by a multiple of WORLD_SIZE large enough to make every i32 input
    // nonnegative, so the Euclidean remainder can be taken on unsigned values.
    let shifted: u64 = ((coord as i64) + 500 + 2_147_484_000) as u64;
    let m: u64 = shifted % 1000;
    proof {
        lemma_mod_multiples_vanish(2_147_484, coord as int + 500, 1000);
        lemma_mod_bound(coord as int + 500, 1000);
    }
    (m as i32) - 500
}

/// Position of a chunk in chunk-grid space. Canonical: X and Z are wrapped,
/// Y is clamped to `[CHUNK_Y_MIN, CHUNK_Y_MAX]`.
#[derive(Debug, Clone, Copy, PartialEq, Eq, Structural, Hash)]
pub struct ChunkPos {
    pub x: i32,
    pub y: i32,
    pub z: i32,
}

impl ChunkPos {
    /// The canonical chunk position denoted by arbitrary grid coordinates.
    pub open spec fn new_spec(x: int, y: int, z: int) -> ChunkPos {
        ChunkPos {
            x: wrap_spec(x) as i32,
            y: clamp_spec(y, CHUNK_Y_MIN as int, CHUNK_Y_MAX as int) as i32,
            z: wrap_spec(z) as i32,
        }
    }

    /// A chunk position is well formed when it is canonical.
    pub open spec fn wf(self) -> bool {
        &&& -HALF_WORLD <= self.x < HALF_WORLD
        &&& CHUNK_Y_MIN <= self.y <= CHUNK_Y_MAX
        &&& -HALF_WORLD <= self.z < HALF_WORLD
    }

    /// Construct a canonical chunk position: wraps X and Z, clamps Y.
    pub fn new(x: i32, y: i32, z: i32) -> (r: ChunkPos)
        ensures
            r == Self::new_spec(x as int, y as int, z as int),
            r.wf(),
    {
        proof {
            lemma_wrap_in_range(x as int);
            lemma_wrap_in_range(z as int);
        }
        let cy: i32 = if y < CHUNK_Y_MIN {
            CHUNK_Y_MIN
        } else if y > CHUNK_Y_MAX {
            CHUNK_Y_MAX
        } else {
            y
        };
        ChunkPos { x: wrap_horizontal(x), y: cy, z: wrap_horizontal(z) }
    }

    /// The world-space block position of this chunk's minimum corner.
    pub open spec fn to_world_pos_spec(self) -> BlockPos {
        BlockPos::new_spec(
            CHUNK_SIZE_I32 * self.x,
            CHUNK_SIZE_I32 * self.y,
            CHUNK_SIZE_I32 * self.z,
        )
    }

    /// Minimum-corner world position of this chunk: each axis is multiplied by
    /// the chunk edge length, then canonicalized at block granularity.
    pub fn to_world_pos(&self) -> (r: BlockPos)
        requires
            self.wf(),
        ensures
            r == self.to_world_pos_spec(),
            r.wf(),
    {
        BlockPos::new(
            self.x * CHUNK_SIZE_I32,
            self.y * CHUNK_SIZE_I32,
            self.z * CHUNK_SIZE_I32,
        )
    }

    /// The chunk whose cube contains the given world-space position:
    /// canonicalize at block granularity, then floor-divide by the chunk edge.
    pub open spec fn from_world_pos_spec(x: int, y: int, z: int) -> ChunkPos {
        BlockPos::new_spec(x, y, z).chunk_pos_spec()
    }

    /// The chunk containing a world-space position.
    pub fn from_world_pos(x: i32, y: i32, z: i32) -> (r: ChunkPos)
        ensures
            r == Self::from_world_pos_spec(x as int, y as int, z as int),
            r.wf(),
    {
        BlockPos::new(x, y, z).chunk_pos()
    }

    /// The 6 axis-adjacent chunk positions, already canonicalized.
    pub fn neighbors(&self) -> (r: [ChunkPos; 6])
        requires
            self.wf(),
        ensures
            r@.len() == 6,
            r@[0] == Self::new_spec(self.x + 1, self.y as int, self.z as int),
            r@[1] == Self::new_spec(self.x - 1, self.y as int, self.z as int),
            r@[2] == Self::new_spec(self.x as int, self.y + 1, self.z as int),
            r@[3] == Self::new_spec(self.x as int, self.y - 1, self.z as int),
            r@[4] == Self::new_spec(self.x as int, self.y as int, self.z + 1),
            r@[5] == Self::new_spec(self.x as int, self.y as int, self.z - 1),
            forall|i: int| 0 <= i < 6 ==> (#[trigger] r@[i]).wf(),
    {
        broadcast use vstd::array::group_array_axioms;

        [
            ChunkPos::new(self.x + 1, self.y, self.z),
            ChunkPos::new(self.x - 1, self.y, self.z),
            ChunkPos::new(self.x, self.y + 1, self.z),
            ChunkPos::new(self.x, self.y - 1, self.z),
            ChunkPos::new(self.x, self.y, self.z + 1),
            ChunkPos::new(self.x, self.y, self.z - 1),
        ]
    }
}

/// Position of a block in world space. Canonical: X and Z are wrapped,
/// Y is clamped to `[BLOCK_Y_MIN, BLOCK_Y_MAX]`.
#[derive(Debug, Clone, Copy, PartialEq, Eq, Structural, Hash)]
pub struct BlockPos {
    pub x: i32,
    pub y: i32,
    pub z: i32,
}

impl BlockPos {
    /// The canonical block position denoted by arbitrary world coordinates.
    pub open spec fn new_spec(x: int, y: int, z: int) -> BlockPos {
        BlockPos {
            x: wrap_spec(x) as i32,
            y: clamp_spec(y, BLOCK_Y_MIN as int, BLOCK_Y_MAX as int) as i32,
            z: wrap_spec(z) as i32,
        }
    }

    /// A block position is well formed when it is canonical.
    pub open spec fn wf(self) -> bool {
        &&& -HALF_WORLD <= self.x < HALF_WORLD
        &&& BLOCK_Y_MIN <= self.y <= BLOCK_Y_MAX
        &&& -HALF_WORLD <= self.z < HALF_WORLD
    }

    /// Construct a canonical block position: wraps X and Z, clamps Y.
    pub fn new(x: i32, y: i32, z: i32) -> (r: BlockPos)
        ensures
            r == Self::new_spec(x as int, y as int, z as int),
            r.wf(),
    {
        proof {
            lemma_wrap_in_range(x as int);
            lemma_wrap_in_range(z as int);
        }
        let cy: i32 = if y < BLOCK_Y_MIN {
            BLOCK_Y_MIN
        } else if y > BLOCK_Y_MAX {
            BLOCK_Y_MAX
        } else {
            y
        };
        BlockPos { x: wrap_horizontal(x), y: cy, z: wrap_horizontal(z) }
    }

    /// The chunk containing this block: Euclidean floor division of each axis
    /// by the chunk edge length, then canonicalization.
    pub open spec fn chunk_pos_spec(self) -> ChunkPos {
        ChunkPos::new_spec(
            self.x as int / CHUNK_SIZE_I32 as int,
            self.y as int / CHUNK_SIZE_I32 as int,
            self.z as int / CHUNK_SIZE_I32 as int,
        )
    }

    /// The chunk containing this block.
    pub fn chunk_pos(&self) -> (r: ChunkPos)
        requires
            self.wf(),
        ensures
            r == self.chunk_pos_spec(),
            r.x == self.x as int / CHUNK_SIZE_I32 as int,
            r.y == self.y as int / CHUNK_SIZE_I32 as int,
            r.z == self.z as int / CHUNK_SIZE_I32 as int,
            r.wf(),
    {
        let qx: i32 = (((self.x + HALF_WORLD) as u32) / 25) as i32 - 20;
        let qy: i32 = (((self.y + HALF_WORLD) as u32) / 25) as i32 - 20;
        let qz: i32 = (((self.z + HALF_WORLD) as u32) / 25) as i32 - 20;
        proof {
            lemma_hoist_over_denominator(self.x as int, 20, 25);
            lemma_hoist_over_denominator(self.y as int, 20, 25);
            lemma_hoist_over_denominator(self.z as int, 20, 25);
            lemma_wrap_identity(qx as int);
            lemma_wrap_identity(qz as int);
        }
        ChunkPos::new(qx, qy, qz)
    }

    /// The block's coordinate within its chunk: Euclidean floor remainder of
    /// each axis by the chunk edge length.
    pub open spec fn local_pos_spec(self) -> LocalPos {
        LocalPos {
            x: (self.x as int % CHUNK_SIZE_I32 as int) as u8,
            y: (self.y as int % CHUNK_SIZE_I32 as int) as u8,
            z: (self.z as int % CHUNK_SIZE_I32 as int) as u8,
        }
    }

    /// The block's coordinate within its chunk.
    pub fn local_pos(&self) -> (r: LocalPos)
        requires
            self.wf(),
        ensures
            r == self.local_pos_spec(),
            r.wf(),
    {
        let lx: u8 = (((self.x + HALF_WORLD) as u32) % 25) as u8;
        let ly: u8 = (((self.y + HALF_WORLD) as u32) % 25) as u8;
        let lz: u8 = (((self.z + HALF_WORLD) as u32) % 25) as u8;
        proof {
            lemma_mod_multiples_vanish(20, self.x as int, 25);
            lemma_mod_multiples_vanish(20, self.y as int, 25);
            lemma_mod_multiples_vanish(20, self.z as int, 25);
            lemma_mod_bound(self.x as int, 25);
            lemma_mod_bound(self.y as int, 25);
            lemma_mod_bound(self.z as int, 25);
        }
        LocalPos { x: lx, y: ly, z: lz }
    }
}

/// Coordinate of a voxel within its owning chunk, each axis in `[0, CHUNK_SIZE)`.
#[derive(Debug, Clone, Copy, PartialEq, Eq, Structural, Hash)]
pub struct LocalPos {
    pub x: u8,
    pub y: u8,
    pub z: u8,
}

impl LocalPos {
    /// A local position is well formed when each axis is within the chunk edge.
    pub open spec fn wf(self) -> bool {
        self.x < CHUNK_SIZE && self.y < CHUNK_SIZE && self.z < CHUNK_SIZE
    }

    /// Construct a local position. Callers pre-validate the ranges, normally
    /// through the coordinate conversions, which always produce in-range values.
    pub fn new(x: u8, y: u8, z: u8) -> (r: LocalPos)
        requires
            x < CHUNK_SIZE,
            y < CHUNK_SIZE,
            z < CHUNK_SIZE,
        ensures
            r == (LocalPos { x, y, z }),
            r.wf(),
    {
        LocalPos { x, y, z }
    }

    /// The flat array index of a local position: `y * edge^2 + z * edge + x`.
    pub open spec fn index_spec(self) -> int {
        self.y * 625 + self.z * 25 + self.x
    }

    /// The local position denoted by a flat array index.
    pub open spec fn from_index_spec(idx: int) -> LocalPos {
        LocalPos {
            x: (idx % 25) as u8,
            y: (idx / 625) as u8,
            z: ((idx % 625) / 25) as u8,
        }
    }

    /// Flat array index of this local position, in `[0, CHUNK_VOLUME)`.
    pub fn to_index(&self) -> (r: usize)
        requires
            self.wf(),
        ensures
            r == self.index_spec(),
            r < CHUNK_VOLUME,
    {
        (self.y as usize) * 625 + (self.z as usize) * 25 + (self.x as usize)
    }

    /// The local position whose flat index is `idx`.
    pub fn from_index(idx: usize) -> (r: LocalPos)
        requires
            idx < CHUNK_VOLUME,
        ensures
            r == Self::from_index_spec(idx as int),
            r.wf(),
    {
        let x: u8 = (idx % 25) as u8;
        let y: u8 = (idx / 625) as u8;
        let z: u8 = ((idx % 625) / 25) as u8;
        LocalPos { x, y, z }
    }
}

/// Index round trip, one direction: converting a well-formed local position to
/// its flat index and back is the identity.
pub proof fn lemma_index_round_trip(p: LocalPos)
    requires
        p.wf(),
    ensures
        LocalPos::from_index_spec(p.index_spec()) == p,
{
    let i = p.index_spec();
    assert(0 <= p.z * 25 + p.x < 625);
    lemma_fundamental_div_mod_converse_div(i, 625, p.y as int, p.z * 25 + p.x);
    lemma_fundamental_div_mod_converse_mod(i, 625, p.y as int, p.z * 25 + p.x);
    lemma_fundamental_div_mod_converse_div(p.z * 25 + p.x, 25, p.z as int, p.x as int);
    lemma_fundamental_div_mod_converse_mod(p.z * 25 + p.x, 25, p.z as int, p.x as int);
    lemma_fundamental_div_mod_converse_mod(i, 25, p.y * 25 + p.z, p.x as int);
}

/// Index round trip, other direction: every flat index in `[0, CHUNK_VOLUME)`
/// decodes to a well-formed local position that encodes back to the index.
pub proof fn lemma_index_bijective(idx: int)
    requires
        0 <= idx < CHUNK_VOLUME,
    ensures
        LocalPos::from_index_spec(idx).wf(),
        LocalPos::from_index_spec(idx).index_spec() == idx,
{
    lemma_mod_bound(idx, 25);
    lemma_mod_bound(idx, 625);
    lemma_fundamental_div_mod(idx, 625);
    lemma_fundamental_div_mod(idx % 625, 25);
    lemma_mod_multiples_vanish(25 * (idx / 625), idx % 625, 25);
    lemma_fundamental_div_mod(idx, 25);
    assert(idx == 625 * (idx / 625) + 25 * ((idx % 625) / 25) + (idx % 625) % 25);
    assert((idx % 625) % 25 == idx % 25) by {
        lemma_mod_multiples_vanish(25 * (idx / 625), idx % 625, 25);
        assert(25 * (25 * (idx / 625)) + (idx % 625) == idx) by {
            lemma_fundamental_div_mod(idx, 625);
        }
    }
}

/// The minimum corner of the chunk containing a block, combined with the
/// block's local position, reconstructs the block exactly; the corner is
/// indeed the minimum corner of the containing chunk.
pub proof fn lemma_block_chunk_decomposition(b: BlockPos)
    requires
        b.wf(),
    ensures
        ({
            let corner = b.chunk_pos_spec().to_world_pos_spec();
            let local = b.local_pos_spec();
            &&& corner.x <= b.x < corner.x + CHUNK_SIZE_I32
            &&& corner.y <= b.y < corner.y + CHUNK_SIZE_I32
            &&& corner.z <= b.z < corner.z + CHUNK_SIZE_I32
            &&& b.x == corner.x + local.x
            &&& b.y == corner.y + local.y
            &&& b.z == corner.z + local.z
        }),
{
    let c = b.chunk_pos_spec();
    lemma_mod_bound(b.x as int, 25);
    lemma_mod_bound(b.y as int, 25);
    lemma_mod_bound(b.z as int, 25);
    lemma_fundamental_div_mod(b.x as int, 25);
    lemma_fundamental_div_mod(b.y as int, 25);
    lemma_fundamental_div_mod(b.z as int, 25);
    lemma_wrap_identity(b.x as int / 25);
    lemma_wrap_identity(b.z as int / 25);
    lemma_wrap_identity(25 * (b.x as int / 25));
    lemma_wrap_identity(25 * (b.z as int / 25));
}

} // verus!
