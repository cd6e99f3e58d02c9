//! Mesher: converts one chunk's voxel grid into a triangle-list surface mesh
//! with per-voxel face culling. Every solid voxel contributes each of its 6
//! axis-aligned faces whose neighbor is out of the chunk (boundary faces are
//! always rendered; no cross-chunk lookup) or is air. Each rendered face emits
//! 4 vertices at the voxel's scaled local coordinates and 6 indices forming
//! two counter-clockwise triangles. The algorithm is per-voxel and
//! non-merging: quad count is proportional to exposed-face count.

use vstd::prelude::*;

verus! {

use crate::block::{BlockId, BlockRegistry, Rgba, AIR_ID};
use crate::chunk::{Chunk, scale_spec, scale_of};
use crate::position::{LocalPos, CHUNK_SIZE, CHUNK_VOLUME};

/// Largest number of vertices a chunk mesh can hold: 4 per face, 6 faces per
/// voxel.
pub const MAX_MESH_VERTICES: usize = 375000;

/// Triangle-list surface mesh: vertex positions in scaled local coordinates,
/// per-vertex normals, placeholder UVs, per-vertex flat colors, and an index
/// buffer, with two counter-clockwise triangles per rendered face.
pub struct MeshData {
    pub positions: Vec<(i64, i64, i64)>,
    pub normals: Vec<(i8, i8, i8)>,
    pub uvs: Vec<(u8, u8)>,
    pub colors: Vec<Rgba>,
    pub indices: Vec<u32>,
}

/// Neighbor offset of face `d`; faces are ordered up, down, north (+Z),
/// south (-Z), east (+X), west (-X).
pub open spec fn face_offset(d: int) -> (int, int, int) {
    if d == 0 {
        (0, 1, 0)
    } else if d == 1 {
        (0, -1, 0)
    } else if d == 2 {
        (0, 0, 1)
    } else if d == 3 {
        (0, 0, -1)
    } else if d == 4 {
        (1, 0, 0)
    } else {
        (-1, 0, 0)
    }
}

/// Outward unit normal of face `d`.
pub open spec fn face_normal(d: int) -> (i8, i8, i8) {
    if d == 0 {
        (0i8, 1i8, 0i8)
    } else if d == 1 {
        (0i8, -1i8, 0i8)
    } else if d == 2 {
        (0i8, 0i8, 1i8)
    } else if d == 3 {
        (0i8, 0i8, -1i8)
    } else if d == 4 {
        (1i8, 0i8, 0i8)
    } else {
        (-1i8, 0i8, 0i8)
    }
}

/// X coordinate of corner `k` of face `d` of the voxel at `p`, at the given
/// scale; corners are listed counter-clockwise seen from outside.
pub open spec fn corner_x(p: LocalPos, d: int, k: int, s: int) -> int {
    let x = p.x * s;
    if d == 0 || d == 1 {
        if k == 0 || k == 3 {
            x
        } else {
            x + s
        }
    } else if d == 2 {
        if k == 0 || k == 1 {
            x
        } else {
            x + s
        }
    } else if d == 3 {
        if k == 0 || k == 1 {
            x + s
        } else {
            x
        }
    } else if d == 4 {
        x + s
    } else {
        x
    }
}

/// Y coordinate of corner `k` of face `d` of the voxel at `p`.
pub open spec fn corner_y(p: LocalPos, d: int, k: int, s: int) -> int {
    let y = p.y * s;
    if d == 0 {
        y + s
    } else if d == 1 {
        y
    } else {
        if k == 1 || k == 2 {
            y + s
        } else {
            y
        }
    }
}

/// Z coordinate of corner `k` of face `d` of the voxel at `p`.
pub open spec fn corner_z(p: LocalPos, d: int, k: int, s: int) -> int {
    let z = p.z * s;
    if d == 0 {
        if k == 0 || k == 1 {
            z
        } else {
            z + s
        }
    } else if d == 1 {
        if k == 0 || k == 1 {
            z + s
        } else {
            z
        }
    } else if d == 2 {
        z + s
    } else if d == 3 {
        z
    } else if d == 4 {
        if k == 0 || k == 1 {
            z + s
        } else {
            z
        }
    } else {
        if k == 0 || k == 1 {
            z
        } else {
            z + s
        }
    }
}

/// Whether a voxel's block is solid under the given catalog, air as fallback.
pub open spec fn is_solid_spec(reg: BlockRegistry, id: BlockId) -> bool {
    reg.lookup_spec(id).is_solid
}

/// Whether the neighbor of `p` at the given offset lets a face show: it is
/// out of the chunk's local bounds (boundary faces always render) or is air.
pub open spec fn neighbor_open(c: Chunk, p: LocalPos, dx: int, dy: int, dz: int) -> bool {
    let nx = p.x + dx;
    let ny = p.y + dy;
    let nz = p.z + dz;
    ||| nx < 0
    ||| nx >= CHUNK_SIZE
    ||| ny < 0
    ||| ny >= CHUNK_SIZE
    ||| nz < 0
    ||| nz >= CHUNK_SIZE
    ||| c.block_at(LocalPos { x: nx as u8, y: ny as u8, z: nz as u8 }) == BlockId(AIR_ID)
}

/// Whether face `d` of the voxel at `p` is rendered: the voxel is solid and
/// the face's neighbor is open.
pub open spec fn face_visible(c: Chunk, reg: BlockRegistry, p: LocalPos, d: int) -> bool {
    let off = face_offset(d);
    is_solid_spec(reg, c.block_at(p)) && neighbor_open(c, p, off.0, off.1, off.2)
}

/// The visible faces of the voxel at `p` among the first `d` face directions,
/// in face order.
pub open spec fn cell_faces(c: Chunk, reg: BlockRegistry, p: LocalPos, d: int) -> Seq<
    (LocalPos, int),
>
    decreases (if d >= 0 {
        d
    } else {
        0
    }),
{
    if d <= 0 {
        Seq::empty()
    } else {
        cell_faces(c, reg, p, d - 1) + (if face_visible(c, reg, p, d - 1) {
            seq![(p, d - 1)]
        } else {
            Seq::empty()
        })
    }
}

/// The voxel the mesher's scan visits at step `n`: X outermost, then Y, then
/// Z innermost.
pub open spec fn scan_pos(n: int) -> LocalPos {
    LocalPos { x: (n / 625) as u8, y: ((n / 25) % 25) as u8, z: (n % 25) as u8 }
}

/// The scan step at which the mesher visits `p`.
pub open spec fn scan_index(p: LocalPos) -> int {
    p.x * 625 + p.y * 25 + p.z
}

/// All visible faces among the first `n` scanned voxels, in scan order with
/// face order within a voxel.
pub open spec fn faces_up_to(c: Chunk, reg: BlockRegistry, n: int) -> Seq<(LocalPos, int)>
    decreases (if n >= 0 {
        n
    } else {
        0
    }),
{
    if n <= 0 {
        Seq::empty()
    } else {
        faces_up_to(c, reg, n - 1) + cell_faces(c, reg, scan_pos(n - 1), 6)
    }
}

/// All visible faces of the chunk, in scan order.
pub open spec fn visible_faces(c: Chunk, reg: BlockRegistry) -> Seq<(LocalPos, int)> {
    faces_up_to(c, reg, CHUNK_VOLUME as int)
}

/// What a correct mesh of the face list `fs` looks like: 4 vertices per face
/// at the face's scaled corners, the face normal and the voxel's debug color
/// at every vertex, placeholder UVs, and per face 6 indices winding two
/// counter-clockwise triangles over its 4 vertices.
pub open spec fn mesh_matches(m: MeshData, c: Chunk, reg: BlockRegistry, fs: Seq<(LocalPos, int)>) -> bool {
    let s = scale_spec(c.depth);
    &&& m.positions@.len() == 4 * fs.len()
    &&& m.normals@.len() == 4 * fs.len()
    &&& m.uvs@.len() == 4 * fs.len()
    &&& m.colors@.len() == 4 * fs.len()
    &&& m.indices@.len() == 6 * fs.len()
    &&& forall|f: int, k: int|
        0 <= f < fs.len() && 0 <= k < 4 ==> #[trigger] m.positions@[4 * f + k] == (
        corner_x(fs[f].0, fs[f].1, k, s) as i64,
        corner_y(fs[f].0, fs[f].1, k, s) as i64,
        corner_z(fs[f].0, fs[f].1, k, s) as i64,
        )
    &&& forall|f: int, k: int|
        0 <= f < fs.len() && 0 <= k < 4 ==> #[trigger] m.normals@[4 * f + k] == face_normal(
            fs[f].1,
        )
    &&& forall|f: int, k: int|
        0 <= f < fs.len() && 0 <= k < 4 ==> #[trigger] m.uvs@[4 * f + k] == (0u8, 0u8)
    &&& forall|f: int, k: int|
        0 <= f < fs.len() && 0 <= k < 4 ==> #[trigger] m.colors@[4 * f + k] == reg.lookup_spec(
            c.block_at(fs[f].0),
        ).debug_color
    &&& forall|f: int|
        0 <= f < fs.len() ==> {
            &&& #[trigger] m.indices@[6 * f] == 4 * f
            &&& m.indices@[6 * f + 1] == 4 * f + 2
            &&& m.indices@[6 * f + 2] == 4 * f + 1
            &&& m.indices@[6 * f + 3] == 4 * f
            &&& m.indices@[6 * f + 4] == 4 * f + 3
            &&& m.indices@[6 * f + 5] == 4 * f + 2
        }
}

/// A voxel contributes at most one face per direction.
proof fn lemma_cell_faces_len(c: Chunk, reg: BlockRegistry, p: LocalPos, d: int)
    requires
        d >= 0,
    ensures
        cell_faces(c, reg, p, d).len() <= d,
    decreases d,
{
    if d > 0 {
        lemma_cell_faces_len(c, reg, p, d - 1);
    }
}

/// Appending one face's data to a matching mesh yields a mesh matching the
/// face list extended by that face.
proof fn lemma_mesh_extend(
    m0: MeshData,
    m1: MeshData,
    c: Chunk,
    reg: BlockRegistry,
    fs: Seq<(LocalPos, int)>,
    p: LocalPos,
    d: int,
)
    requires
        mesh_matches(m0, c, reg, fs),
        fs.len() <= 6 * CHUNK_VOLUME,
        ({
            let s = scale_spec(c.depth);
            let b = m0.positions@.len() as int;
            &&& m1.positions@ == m0.positions@ + seq![
                (corner_x(p, d, 0, s) as i64, corner_y(p, d, 0, s) as i64, corner_z(p, d, 0, s) as i64),
                (corner_x(p, d, 1, s) as i64, corner_y(p, d, 1, s) as i64, corner_z(p, d, 1, s) as i64),
                (corner_x(p, d, 2, s) as i64, corner_y(p, d, 2, s) as i64, corner_z(p, d, 2, s) as i64),
                (corner_x(p, d, 3, s) as i64, corner_y(p, d, 3, s) as i64, corner_z(p, d, 3, s) as i64),
            ]
            &&& m1.normals@ == m0.normals@ + seq![
                face_normal(d),
                face_normal(d),
                face_normal(d),
                face_normal(d),
            ]
            &&& m1.uvs@ == m0.uvs@ + seq![(0u8, 0u8), (0u8, 0u8), (0u8, 0u8), (0u8, 0u8)]
            &&& m1.colors@ == m0.colors@ + seq![
                reg.lookup_spec(c.block_at(p)).debug_color,
                reg.lookup_spec(c.block_at(p)).debug_color,
                reg.lookup_spec(c.block_at(p)).debug_color,
                reg.lookup_spec(c.block_at(p)).debug_color,
            ]
            &&& m1.indices@ == m0.indices@ + seq![
                b as u32,
                (b + 2) as u32,
                (b + 1) as u32,
                b as u32,
                (b + 3) as u32,
                (b + 2) as u32,
            ]
        }),
    ensures
        mesh_matches(m1, c, reg, fs.push((p, d))),
{
    let gs = fs.push((p, d));
    let s = scale_spec(c.depth);
    assert forall|f: int, k: int| 0 <= f < gs.len() && 0 <= k < 4 implies #[trigger] m1.positions@[4
        * f + k] == (
    corner_x(gs[f].0, gs[f].1, k, s) as i64,
    corner_y(gs[f].0, gs[f].1, k, s) as i64,
    corner_z(gs[f].0, gs[f].1, k, s) as i64,
    ) by {
        if f < fs.len() {
            assert(m1.positions@[4 * f + k] == m0.positions@[4 * f + k]);
        } else {
            assert(m1.positions@[4 * f + k] == m1.positions@[m0.positions@.len() as int + k]);
        }
    }
    assert forall|f: int, k: int| 0 <= f < gs.len() && 0 <= k < 4 implies #[trigger] m1.normals@[4
        * f + k] == face_normal(gs[f].1) by {
        if f < fs.len() {
            assert(m1.normals@[4 * f + k] == m0.normals@[4 * f + k]);
        } else {
            assert(m1.normals@[4 * f + k] == m1.normals@[m0.normals@.len() as int + k]);
        }
    }
    assert forall|f: int, k: int| 0 <= f < gs.len() && 0 <= k < 4 implies #[trigger] m1.uvs@[4 * f
        + k] == (0u8, 0u8) by {
        if f < fs.len() {
            assert(m1.uvs@[4 * f + k] == m0.uvs@[4 * f + k]);
        } else {
            assert(m1.uvs@[4 * f + k] == m1.uvs@[m0.uvs@.len() as int + k]);
        }
    }
    assert forall|f: int, k: int| 0 <= f < gs.len() && 0 <= k < 4 implies #[trigger] m1.colors@[4
        * f + k] == reg.lookup_spec(c.block_at(gs[f].0)).debug_color by {
        if f < fs.len() {
            assert(m1.colors@[4 * f + k] == m0.colors@[4 * f + k]);
        } else {
            assert(m1.colors@[4 * f + k] == m1.colors@[m0.colors@.len() as int + k]);
        }
    }
    assert forall|f: int| 0 <= f < gs.len() implies {
        &&& #[trigger] m1.indices@[6 * f] == 4 * f
        &&& m1.indices@[6 * f + 1] == 4 * f + 2
        &&& m1.indices@[6 * f + 2] == 4 * f + 1
        &&& m1.indices@[6 * f + 3] == 4 * f
        &&& m1.indices@[6 * f + 4] == 4 * f + 3
        &&& m1.indices@[6 * f + 5] == 4 * f + 2
    } by {
        if f < fs.len() {
            assert(m1.indices@[6 * f] == m0.indices@[6 * f]);
            assert(m1.indices@[6 * f + 1] == m0.indices@[6 * f + 1]);
            assert(m1.indices@[6 * f + 2] == m0.indices@[6 * f + 2]);
            assert(m1.indices@[6 * f + 3] == m0.indices@[6 * f + 3]);
            assert(m1.indices@[6 * f + 4] == m0.indices@[6 * f + 4]);
            assert(m1.indices@[6 * f + 5] == m0.indices@[6 * f + 5]);
        } else {
            assert(m1.indices@[6 * f] == m1.indices@[m0.indices@.len() as int + 0]);
            assert(m1.indices@[6 * f + 1] == m1.indices@[m0.indices@.len() as int + 1]);
            assert(m1.indices@[6 * f + 2] == m1.indices@[m0.indices@.len() as int + 2]);
            assert(m1.indices@[6 * f + 3] == m1.indices@[m0.indices@.len() as int + 3]);
            assert(m1.indices@[6 * f + 4] == m1.indices@[m0.indices@.len() as int + 4]);
            assert(m1.indices@[6 * f + 5] == m1.indices@[m0.indices@.len() as int + 5]);
        }
    }
}

/// Whether the face of `pos` toward offset `(dx, dy, dz)` shows: out-of-bounds
/// neighbors always show the face, in-bounds air neighbors show it.
fn should_render_face(chunk: &Chunk, pos: LocalPos, dx: i32, dy: i32, dz: i32) -> (r: bool)
    requires
        chunk.wf(),
        pos.wf(),
        -1 <= dx <= 1,
        -1 <= dy <= 1,
        -1 <= dz <= 1,
    ensures
        r == neighbor_open(*chunk, pos, dx as int, dy as int, dz as int),
{
    let nx = pos.x as i32 + dx;
    let ny = pos.y as i32 + dy;
    let nz = pos.z as i32 + dz;
    if nx < 0 || nx >= CHUNK_SIZE as i32 || ny < 0 || ny >= CHUNK_SIZE as i32 || nz < 0 || nz
        >= CHUNK_SIZE as i32 {
        return true;
    }
    let neighbor_pos = LocalPos::new(nx as u8, ny as u8, nz as u8);
    let neighbor_block = chunk.get_block(neighbor_pos);
    neighbor_block.0 == AIR_ID
}

/// Append one face's 4 vertices (with normal, placeholder UV and flat color)
/// and its 6 triangle-list indices to the mesh.
fn emit_face(
    mesh: &mut MeshData,
    v0: (i64, i64, i64),
    v1: (i64, i64, i64),
    v2: (i64, i64, i64),
    v3: (i64, i64, i64),
    normal: (i8, i8, i8),
    color: Rgba,
)
    requires
        old(mesh).positions@.len() <= MAX_MESH_VERTICES,
    ensures
        final(mesh).positions@ == old(mesh).positions@ + seq![v0, v1, v2, v3],
        final(mesh).normals@ == old(mesh).normals@ + seq![normal, normal, normal, normal],
        final(mesh).uvs@ == old(mesh).uvs@ + seq![(0u8, 0u8), (0u8, 0u8), (0u8, 0u8), (0u8, 0u8)],
        final(mesh).colors@ == old(mesh).colors@ + seq![color, color, color, color],
        final(mesh).indices@ == old(mesh).indices@ + seq![
            old(mesh).positions@.len() as u32,
            (old(mesh).positions@.len() + 2) as u32,
            (old(mesh).positions@.len() + 1) as u32,
            old(mesh).positions@.len() as u32,
            (old(mesh).positions@.len() + 3) as u32,
            (old(mesh).positions@.len() + 2) as u32,
        ],
{
    let base_idx: u32 = mesh.positions.len() as u32;
    mesh.positions.push(v0);
    mesh.positions.push(v1);
    mesh.positions.push(v2);
    mesh.positions.push(v3);
    mesh.normals.push(normal);
    mesh.normals.push(normal);
    mesh.normals.push(normal);
    mesh.normals.push(normal);
    mesh.uvs.push((0, 0));
    mesh.uvs.push((0, 0));
    mesh.uvs.push((0, 0));
    mesh.uvs.push((0, 0));
    mesh.colors.push(color);
    mesh.colors.push(color);
    mesh.colors.push(color);
    mesh.colors.push(color);
    mesh.indices.push(base_idx);
    mesh.indices.push(base_idx + 2);
    mesh.indices.push(base_idx + 1);
    mesh.indices.push(base_idx);
    mesh.indices.push(base_idx + 3);
    mesh.indices.push(base_idx + 2);
    proof {
        assert(mesh.positions@ =~= old(mesh).positions@ + seq![v0, v1, v2, v3]);
        assert(mesh.normals@ =~= old(mesh).normals@ + seq![normal, normal, normal, normal]);
        assert(mesh.uvs@ =~= old(mesh).uvs@ + seq![
            (0u8, 0u8),
            (0u8, 0u8),
            (0u8, 0u8),
            (0u8, 0u8),
        ]);
        assert(mesh.colors@ =~= old(mesh).colors@ + seq![color, color, color, color]);
        assert(mesh.indices@ =~= old(mesh).indices@ + seq![
            old(mesh).positions@.len() as u32,
            (old(mesh).positions@.len() + 2) as u32,
            (old(mesh).positions@.len() + 1) as u32,
            old(mesh).positions@.len() as u32,
            (old(mesh).positions@.len() + 3) as u32,
            (old(mesh).positions@.len() + 2) as u32,
        ]);
    }
}

/// Emit the visible faces of the solid voxel at `pos` into the mesh, in face
/// order: up, down, north, south, east, west.
#[verifier::rlimit(100)]
fn add_block_faces(
    pos: LocalPos,
    block_id: BlockId,
    chunk: &Chunk,
    block_registry: &BlockRegistry,
    scale: u32,
    mesh: &mut MeshData,
    Ghost(fs): Ghost<Seq<(LocalPos, int)>>,
)
    requires
        chunk.wf(),
        block_registry.wf(),
        pos.wf(),
        block_id == chunk.block_at(pos),
        is_solid_spec(*block_registry, block_id),
        scale == scale_spec(chunk.depth),
        1 <= scale <= 1024,
        mesh_matches(*old(mesh), *chunk, *block_registry, fs),
        fs.len() <= 6 * (CHUNK_VOLUME - 1),
    ensures
        mesh_matches(*final(mesh), *chunk, *block_registry, fs + cell_faces(
            *chunk,
            *block_registry,
            pos,
            6,
        )),
{
    let block_props = block_registry.get_or_air(block_id);
    let color = block_props.debug_color;
    let s: i64 = scale as i64;
    proof {
        assert(0 <= (pos.x as i64) * s <= 24 * 1024 && 0 <= (pos.y as i64) * s <= 24 * 1024 && 0
            <= (pos.z as i64) * s <= 24 * 1024) by (nonlinear_arith)
            requires
                0 <= pos.x < 25,
                0 <= pos.y < 25,
                0 <= pos.z < 25,
                1 <= s <= 1024,
        ;
    }
    let x: i64 = (pos.x as i64) * s;
    let y: i64 = (pos.y as i64) * s;
    let z: i64 = (pos.z as i64) * s;
    let ghost c = *chunk;
    let ghost reg = *block_registry;
    proof {
        assert(cell_faces(c, reg, pos, 0) =~= Seq::<(LocalPos, int)>::empty());
        assert(fs + cell_faces(c, reg, pos, 0) =~= fs);
        lemma_cell_faces_len(c, reg, pos, 1);
        lemma_cell_faces_len(c, reg, pos, 2);
        lemma_cell_faces_len(c, reg, pos, 3);
        lemma_cell_faces_len(c, reg, pos, 4);
        lemma_cell_faces_len(c, reg, pos, 5);
        lemma_cell_faces_len(c, reg, pos, 6);
    }
    // Up
    if should_render_face(chunk, pos, 0, 1, 0) {
        emit_face(
            mesh,
            (x, y + s, z),
            (x + s, y + s, z),
            (x + s, y + s, z + s),
            (x, y + s, z + s),
            (0, 1, 0),
            color,
        );
        proof {
            lemma_mesh_extend(*old(mesh), *mesh, c, reg, fs, pos, 0);
            assert(fs + cell_faces(c, reg, pos, 1) =~= (fs + cell_faces(c, reg, pos, 0)).push(
                (pos, 0),
            ));
        }
    } else {
        proof {
            assert(fs + cell_faces(c, reg, pos, 1) =~= fs + cell_faces(c, reg, pos, 0));
        }
    }
    let ghost m1 = *mesh;
    // Down
    if should_render_face(chunk, pos, 0, -1, 0) {
        emit_face(
            mesh,
            (x, y, z + s),
            (x + s, y, z + s),
            (x + s, y, z),
            (x, y, z),
            (0, -1, 0),
            color,
        );
        proof {
            lemma_mesh_extend(m1, *mesh, c, reg, fs + cell_faces(c, reg, pos, 1), pos, 1);
            assert(fs + cell_faces(c, reg, pos, 2) =~= (fs + cell_faces(c, reg, pos, 1)).push(
                (pos, 1),
            ));
        }
    } else {
        proof {
            assert(fs + cell_faces(c, reg, pos, 2) =~= fs + cell_faces(c, reg, pos, 1));
        }
    }
    let ghost m2 = *mesh;
    // North (+Z)
    if should_render_face(chunk, pos, 0, 0, 1) {
        emit_face(
            mesh,
            (x, y, z + s),
            (x, y + s, z + s),
            (x + s, y + s, z + s),
            (x + s, y, z + s),
            (0, 0, 1),
            color,
        );
        proof {
            lemma_mesh_extend(m2, *mesh, c, reg, fs + cell_faces(c, reg, pos, 2), pos, 2);
            assert(fs + cell_faces(c, reg, pos, 3) =~= (fs + cell_faces(c, reg, pos, 2)).push(
                (pos, 2),
            ));
        }
    } else {
        proof {
            assert(fs + cell_faces(c, reg, pos, 3) =~= fs + cell_faces(c, reg, pos, 2));
        }
    }
    let ghost m3 = *mesh;
    // South (-Z)
    if should_render_face(chunk, pos, 0, 0, -1) {
        emit_face(
            mesh,
            (x + s, y, z),
            (x + s, y + s, z),
            (x, y + s, z),
            (x, y, z),
            (0, 0, -1),
            color,
        );
        proof {
            lemma_mesh_extend(m3, *mesh, c, reg, fs + cell_faces(c, reg, pos, 3), pos, 3);
            assert(fs + cell_faces(c, reg, pos, 4) =~= (fs + cell_faces(c, reg, pos, 3)).push(
                (pos, 3),
            ));
        }
    } else {
        proof {
            assert(fs + cell_faces(c, reg, pos, 4) =~= fs + cell_faces(c, reg, pos, 3));
        }
    }
    let ghost m4 = *mesh;
    // East (+X)
    if should_render_face(chunk, pos, 1, 0, 0) {
        emit_face(
            mesh,
            (x + s, y, z + s),
            (x + s, y + s, z + s),
            (x + s, y + s, z),
            (x + s, y, z),
            (1, 0, 0),
            color,
        );
        proof {
            lemma_mesh_extend(m4, *mesh, c, reg, fs + cell_faces(c, reg, pos, 4), pos, 4);
            assert(fs + cell_faces(c, reg, pos, 5) =~= (fs + cell_faces(c, reg, pos, 4)).push(
                (pos, 4),
            ));
        }
    } else {
        proof {
            assert(fs + cell_faces(c, reg, pos, 5) =~= fs + cell_faces(c, reg, pos, 4));
        }
    }
    let ghost m5 = *mesh;
    // West (-X)
    if should_render_face(chunk, pos, -1, 0, 0) {
        emit_face(
            mesh,
            (x, y, z),
            (x, y + s, z),
            (x, y + s, z + s),
            (x, y, z + s),
            (-1, 0, 0),
            color,
        );
        proof {
            lemma_mesh_extend(m5, *mesh, c, reg, fs + cell_faces(c, reg, pos, 5), pos, 5);
            assert(fs + cell_faces(c, reg, pos, 6) =~= (fs + cell_faces(c, reg, pos, 5)).push(
                (pos, 5),
            ));
        }
    } else {
        proof {
            assert(fs + cell_faces(c, reg, pos, 6) =~= fs + cell_faces(c, reg, pos, 5));
        }
    }
}

/// Build the triangle-list surface mesh of one chunk against the catalog:
/// exactly the visible faces of its solid voxels, in scan order, as
/// [`mesh_matches`] lays them out.
pub fn generate_chunk_mesh(chunk: &Chunk, block_registry: &BlockRegistry) -> (r: MeshData)
    requires
        chunk.wf(),
        block_registry.wf(),
    ensures
        mesh_matches(r, *chunk, *block_registry, visible_faces(*chunk, *block_registry)),
{
    let ghost c = *chunk;
    let ghost reg = *block_registry;
    let scale: u32 = scale_of(chunk.depth);
    let mut mesh = MeshData {
        positions: Vec::new(),
        normals: Vec::new(),
        uvs: Vec::new(),
        colors: Vec::new(),
        indices: Vec::new(),
    };
    let mut n: usize = 0;
    while n < CHUNK_VOLUME
        invariant
            chunk.wf(),
            block_registry.wf(),
            c == *chunk,
            reg == *block_registry,
            scale == scale_spec(chunk.depth),
            1 <= scale <= 1024,
            n <= CHUNK_VOLUME,
            faces_up_to(c, reg, n as int).len() <= 6 * n,
            mesh_matches(mesh, c, reg, faces_up_to(c, reg, n as int)),
        decreases CHUNK_VOLUME - n,
    {
        let xi: usize = n / 625;
        let yi: usize = (n / 25) % 25;
        let zi: usize = n % 25;
        proof {
            vstd::arithmetic::div_mod::lemma_mod_bound(n as int, 25);
            vstd::arithmetic::div_mod::lemma_mod_bound(n as int / 25, 25);
            assert(n as int / 625 < 25 && n as int / 25 < 625) by (nonlinear_arith)
                requires
                    0 <= n < 15625,
            ;
        }
        let pos = LocalPos::new(xi as u8, yi as u8, zi as u8);
        proof {
            assert(n as int / 25 / 25 == n as int / 625) by {
                vstd::arithmetic::div_mod::lemma_div_denominator(n as int, 25, 25);
            }
            assert(pos == scan_pos(n as int));
        }
        let block_id = chunk.get_block(pos);
        let props = block_registry.get_or_air(block_id);
        if props.is_solid {
            add_block_faces(
                pos,
                block_id,
                chunk,
                block_registry,
                scale,
                &mut mesh,
                Ghost(faces_up_to(c, reg, n as int)),
            );
            proof {
                lemma_cell_faces_len(c, reg, pos, 6);
            }
        } else {
            proof {
                lemma_cell_faces_empty(c, reg, pos);
                assert(faces_up_to(c, reg, n as int) + cell_faces(c, reg, pos, 6) =~= faces_up_to(
                    c,
                    reg,
                    n as int,
                ));
            }
        }
        n = n + 1;
    }
    mesh
}

/// A voxel that is not solid contributes no faces.
proof fn lemma_cell_faces_empty(c: Chunk, reg: BlockRegistry, p: LocalPos)
    requires
        !is_solid_spec(reg, c.block_at(p)),
    ensures
        cell_faces(c, reg, p, 6) =~= Seq::<(LocalPos, int)>::empty(),
{
    reveal_with_fuel(cell_faces, 8);
}


/// The scan visits every well-formed voxel exactly once: encoding a voxel's
/// scan step and decoding it is the identity.
proof fn lemma_scan_round_trip(p: LocalPos)
    requires
        p.wf(),
    ensures
        0 <= scan_index(p) < CHUNK_VOLUME,
        scan_pos(scan_index(p)) == p,
{
    let n = scan_index(p);
    assert(0 <= p.y * 25 + p.z < 625);
    vstd::arithmetic::div_mod::lemma_fundamental_div_mod_converse_div(n, 625, p.x as int, p.y * 25 + p.z);
    vstd::arithmetic::div_mod::lemma_fundamental_div_mod_converse_mod(n, 625, p.x as int, p.y * 25 + p.z);
    vstd::arithmetic::div_mod::lemma_fundamental_div_mod_converse_div(n, 25, p.x * 25 + p.y, p.z as int);
    vstd::arithmetic::div_mod::lemma_fundamental_div_mod_converse_mod(n, 25, p.x * 25 + p.y, p.z as int);
    vstd::arithmetic::div_mod::lemma_fundamental_div_mod_converse_mod(
        p.x * 25 + p.y,
        25,
        p.x as int,
        p.y as int,
    );
    assert((n / 25) % 25 == p.y) by {
        vstd::arithmetic::div_mod::lemma_fundamental_div_mod_converse_mod(
            n / 25,
            25,
            p.x as int,
            p.y as int,
        );
    }
}

/// Every scan step decodes to a well-formed voxel that encodes back to it.
proof fn lemma_scan_bijective(n: int)
    requires
        0 <= n < CHUNK_VOLUME,
    ensures
        scan_pos(n).wf(),
        scan_index(scan_pos(n)) == n,
{
    vstd::arithmetic::div_mod::lemma_mod_bound(n, 25);
    vstd::arithmetic::div_mod::lemma_mod_bound(n / 25, 25);
    assert(n / 625 < 25 && 0 <= n / 625 && 0 <= n / 25) by (nonlinear_arith)
        requires
            0 <= n < 15625,
    ;
    assert(n / 25 / 25 == n / 625) by {
        vstd::arithmetic::div_mod::lemma_div_denominator(n, 25, 25);
    }
    vstd::arithmetic::div_mod::lemma_fundamental_div_mod(n, 25);
    vstd::arithmetic::div_mod::lemma_fundamental_div_mod(n / 25, 25);
}

/// The faces of a prefix of the scan, one voxel further.
proof fn lemma_faces_step(c: Chunk, reg: BlockRegistry, n: int)
    requires
        0 <= n,
    ensures
        faces_up_to(c, reg, n + 1) == faces_up_to(c, reg, n) + cell_faces(c, reg, scan_pos(n), 6),
{
}

/// A chunk filled entirely with air produces no visible faces, so its mesh
/// has zero vertices and zero indices.
pub proof fn lemma_air_chunk_mesh_empty(c: Chunk, reg: BlockRegistry)
    requires
        c.wf(),
        reg.wf(),
        forall|i: int| 0 <= i < CHUNK_VOLUME ==> c@[i] == BlockId(AIR_ID),
        !reg.lookup_spec(BlockId(AIR_ID)).is_solid,
    ensures
        visible_faces(c, reg).len() == 0,
        forall|m: MeshData|
            #[trigger] mesh_matches(m, c, reg, visible_faces(c, reg)) ==> m.positions@.len() == 0
                && m.indices@.len() == 0,
{
    lemma_faces_up_to_air(c, reg, CHUNK_VOLUME as int);
}

/// No scanned prefix of an all-air chunk contributes a face.
proof fn lemma_faces_up_to_air(c: Chunk, reg: BlockRegistry, n: int)
    requires
        c.wf(),
        reg.wf(),
        forall|i: int| 0 <= i < CHUNK_VOLUME ==> c@[i] == BlockId(AIR_ID),
        !reg.lookup_spec(BlockId(AIR_ID)).is_solid,
        0 <= n <= CHUNK_VOLUME,
    ensures
        faces_up_to(c, reg, n).len() == 0,
    decreases n,
{
    if n > 0 {
        lemma_faces_up_to_air(c, reg, n - 1);
        let p = scan_pos(n - 1);
        lemma_scan_bijective(n - 1);
        assert(0 <= p.index_spec() < CHUNK_VOLUME);
        assert(c.block_at(p) == BlockId(AIR_ID));
        lemma_cell_faces_empty(c, reg, p);
    }
}

/// In a chunk whose only non-air voxel is the solid voxel at `p`, every face
/// of `p` is visible and no other voxel contributes one.
proof fn lemma_cell_faces_isolated(c: Chunk, reg: BlockRegistry, p: LocalPos)
    requires
        c.wf(),
        reg.wf(),
        p.wf(),
        is_solid_spec(reg, c.block_at(p)),
        forall|i: int|
            0 <= i < CHUNK_VOLUME && i != p.index_spec() ==> c@[i] == BlockId(AIR_ID),
    ensures
        cell_faces(c, reg, p, 6).len() == 6,
{
    assert forall|d: int| 0 <= d < 6 implies face_visible(c, reg, p, d) by {
        lemma_neighbor_open_when_absent(c, p, d, p, p);
    }
    reveal_with_fuel(cell_faces, 8);
}

/// Face `d` of `p` is open when every in-bounds voxel other than `a` and `b`
/// is air and the face's neighbor is neither `a` nor `b`.
proof fn lemma_neighbor_open_when_absent(c: Chunk, p: LocalPos, d: int, a: LocalPos, b: LocalPos)
    requires
        c.wf(),
        p.wf(),
        a.wf(),
        b.wf(),
        0 <= d < 6,
        forall|i: int|
            0 <= i < CHUNK_VOLUME && i != a.index_spec() && i != b.index_spec() ==> c@[i]
                == BlockId(AIR_ID),
        ({
            let off = face_offset(d);
            let nx = p.x + off.0;
            let ny = p.y + off.1;
            let nz = p.z + off.2;
            (0 <= nx < CHUNK_SIZE && 0 <= ny < CHUNK_SIZE && 0 <= nz < CHUNK_SIZE) ==> {
                let q = LocalPos { x: nx as u8, y: ny as u8, z: nz as u8 };
                q != a && q != b
            }
        }),
    ensures
        ({
            let off = face_offset(d);
            neighbor_open(c, p, off.0, off.1, off.2)
        }),
{
    let off = face_offset(d);
    let nx = p.x + off.0;
    let ny = p.y + off.1;
    let nz = p.z + off.2;
    if 0 <= nx < CHUNK_SIZE && 0 <= ny < CHUNK_SIZE && 0 <= nz < CHUNK_SIZE {
        let q = LocalPos { x: nx as u8, y: ny as u8, z: nz as u8 };
        crate::position::lemma_index_round_trip(q);
        crate::position::lemma_index_round_trip(a);
        crate::position::lemma_index_round_trip(b);
        assert(q.index_spec() != a.index_spec() && q.index_spec() != b.index_spec());
        assert(0 <= q.index_spec() < CHUNK_VOLUME);
        assert(c.block_at(q) == BlockId(AIR_ID));
    }
}

/// A single isolated solid voxel, surrounded by air on all 6 sides, produces
/// exactly 6 visible faces: a mesh of it has exactly 24 vertices (4 per face)
/// and 36 indices (6 per face).
pub proof fn lemma_isolated_voxel_mesh(c: Chunk, reg: BlockRegistry, p: LocalPos)
    requires
        c.wf(),
        reg.wf(),
        p.wf(),
        is_solid_spec(reg, c.block_at(p)),
        forall|i: int|
            0 <= i < CHUNK_VOLUME && i != p.index_spec() ==> c@[i] == BlockId(AIR_ID),
        !reg.lookup_spec(BlockId(AIR_ID)).is_solid,
    ensures
        visible_faces(c, reg).len() == 6,
        forall|m: MeshData|
            #[trigger] mesh_matches(m, c, reg, visible_faces(c, reg)) ==> m.positions@.len() == 24
                && m.indices@.len() == 36,
{
    lemma_faces_up_to_isolated(c, reg, p, CHUNK_VOLUME as int);
    lemma_scan_round_trip(p);
}

/// Prefix face counts for the isolated-voxel chunk: 6 once the scan has
/// passed `p`, 0 before.
proof fn lemma_faces_up_to_isolated(c: Chunk, reg: BlockRegistry, p: LocalPos, n: int)
    requires
        c.wf(),
        reg.wf(),
        p.wf(),
        is_solid_spec(reg, c.block_at(p)),
        forall|i: int|
            0 <= i < CHUNK_VOLUME && i != p.index_spec() ==> c@[i] == BlockId(AIR_ID),
        !reg.lookup_spec(BlockId(AIR_ID)).is_solid,
        0 <= n <= CHUNK_VOLUME,
    ensures
        faces_up_to(c, reg, n).len() == if n > scan_index(p) {
            6int
        } else {
            0int
        },
    decreases n,
{
    lemma_scan_round_trip(p);
    if n > 0 {
        lemma_faces_up_to_isolated(c, reg, p, n - 1);
        let q = scan_pos(n - 1);
        lemma_scan_bijective(n - 1);
        if n - 1 == scan_index(p) {
            assert(q == p);
            lemma_cell_faces_isolated(c, reg, p);
        } else {
            assert(q != p);
            crate::position::lemma_index_round_trip(q);
            crate::position::lemma_index_round_trip(p);
            assert(q.index_spec() != p.index_spec());
            assert(c.block_at(q) == BlockId(AIR_ID));
            lemma_cell_faces_empty(c, reg, q);
        }
    }
}

/// The visible faces of the lower voxel of a stacked pair: all but the
/// shared up face.
proof fn lemma_cell_faces_lower(c: Chunk, reg: BlockRegistry, p: LocalPos, q: LocalPos)
    requires
        c.wf(),
        reg.wf(),
        p.wf(),
        q.wf(),
        q.x == p.x,
        q.z == p.z,
        q.y == p.y + 1,
        is_solid_spec(reg, c.block_at(p)),
        c.block_at(q) != BlockId(AIR_ID),
        forall|i: int|
            0 <= i < CHUNK_VOLUME && i != p.index_spec() && i != q.index_spec() ==> c@[i]
                == BlockId(AIR_ID),
    ensures
        cell_faces(c, reg, p, 6).len() == 5,
{
    crate::position::lemma_index_round_trip(q);
    assert(!face_visible(c, reg, p, 0)) by {
        assert(c.block_at(LocalPos { x: (p.x + 0) as u8, y: (p.y + 1) as u8, z: (p.z + 0) as u8 })
            != BlockId(AIR_ID));
    }
    assert forall|d: int| 1 <= d < 6 implies face_visible(c, reg, p, d) by {
        lemma_neighbor_open_when_absent(c, p, d, p, q);
    }
    reveal_with_fuel(cell_faces, 8);
}

/// The visible faces of the upper voxel of a stacked pair: all but the
/// shared down face.
proof fn lemma_cell_faces_upper(c: Chunk, reg: BlockRegistry, p: LocalPos, q: LocalPos)
    requires
        c.wf(),
        reg.wf(),
        p.wf(),
        q.wf(),
        q.x == p.x,
        q.z == p.z,
        q.y == p.y + 1,
        is_solid_spec(reg, c.block_at(q)),
        c.block_at(p) != BlockId(AIR_ID),
        forall|i: int|
            0 <= i < CHUNK_VOLUME && i != p.index_spec() && i != q.index_spec() ==> c@[i]
                == BlockId(AIR_ID),
    ensures
        cell_faces(c, reg, q, 6).len() == 5,
{
    crate::position::lemma_index_round_trip(p);
    assert(!face_visible(c, reg, q, 1)) by {
        assert(c.block_at(LocalPos { x: (q.x + 0) as u8, y: (q.y - 1) as u8, z: (q.z + 0) as u8 })
            != BlockId(AIR_ID));
    }
    assert forall|d: int| 0 <= d < 6 && d != 1 implies face_visible(c, reg, q, d) by {
        lemma_neighbor_open_when_absent(c, q, d, p, q);
    }
    reveal_with_fuel(cell_faces, 8);
}

/// Two vertically stacked solid voxels share one internal face that is culled
/// on both sides: together they produce exactly 10 visible faces
/// (6 + 6 - 2 shared), so a mesh of them has 40 vertices and 60 indices.
pub proof fn lemma_stacked_voxels_mesh(c: Chunk, reg: BlockRegistry, p: LocalPos, q: LocalPos)
    requires
        c.wf(),
        reg.wf(),
        p.wf(),
        q.wf(),
        q.x == p.x,
        q.z == p.z,
        q.y == p.y + 1,
        is_solid_spec(reg, c.block_at(p)),
        is_solid_spec(reg, c.block_at(q)),
        c.block_at(p) != BlockId(AIR_ID),
        c.block_at(q) != BlockId(AIR_ID),
        forall|i: int|
            0 <= i < CHUNK_VOLUME && i != p.index_spec() && i != q.index_spec() ==> c@[i]
                == BlockId(AIR_ID),
        !reg.lookup_spec(BlockId(AIR_ID)).is_solid,
    ensures
        visible_faces(c, reg).len() == 10,
        forall|m: MeshData|
            #[trigger] mesh_matches(m, c, reg, visible_faces(c, reg)) ==> m.positions@.len() == 40
                && m.indices@.len() == 60,
{
    lemma_faces_up_to_stacked(c, reg, p, q, CHUNK_VOLUME as int);
    lemma_scan_round_trip(p);
    lemma_scan_round_trip(q);
}

/// Prefix face counts for the stacked-pair chunk: each of the two voxels
/// contributes its 5 visible faces once the scan has passed it.
proof fn lemma_faces_up_to_stacked(c: Chunk, reg: BlockRegistry, p: LocalPos, q: LocalPos, n: int)
    requires
        c.wf(),
        reg.wf(),
        p.wf(),
        q.wf(),
        q.x == p.x,
        q.z == p.z,
        q.y == p.y + 1,
        is_solid_spec(reg, c.block_at(p)),
        is_solid_spec(reg, c.block_at(q)),
        c.block_at(p) != BlockId(AIR_ID),
        c.block_at(q) != BlockId(AIR_ID),
        forall|i: int|
            0 <= i < CHUNK_VOLUME && i != p.index_spec() && i != q.index_spec() ==> c@[i]
                == BlockId(AIR_ID),
        !reg.lookup_spec(BlockId(AIR_ID)).is_solid,
        0 <= n <= CHUNK_VOLUME,
    ensures
        faces_up_to(c, reg, n).len() == (if n > scan_index(p) {
            5int
        } else {
            0int
        }) + (if n > scan_index(q) {
            5int
        } else {
            0int
        }),
    decreases n,
{
    lemma_scan_round_trip(p);
    lemma_scan_round_trip(q);
    if n > 0 {
        lemma_faces_up_to_stacked(c, reg, p, q, n - 1);
        let r = scan_pos(n - 1);
        lemma_scan_bijective(n - 1);
        if n - 1 == scan_index(p) {
            assert(r == p);
            lemma_cell_faces_lower(c, reg, p, q);
        } else if n - 1 == scan_index(q) {
            assert(r == q);
            lemma_cell_faces_upper(c, reg, p, q);
        } else {
            assert(r != p && r != q);
            crate::position::lemma_index_round_trip(r);
            crate::position::lemma_index_round_trip(p);
            crate::position::lemma_index_round_trip(q);
            assert(c.block_at(r) == BlockId(AIR_ID));
            lemma_cell_faces_empty(c, reg, r);
        }
    }
}

} // verus!

