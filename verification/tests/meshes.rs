use aeternitas::block::{BlockId, BlockRegistry, Rgba};
use aeternitas::chunk::Chunk;
use aeternitas::meshing::generate_chunk_mesh;
use aeternitas::position::{ChunkPos, LocalPos};

#[test]
fn test_air_chunk_empty_mesh() {
    let registry = BlockRegistry::new();
    let chunk = Chunk::empty(ChunkPos::new(0, 0, 0), 0);
    let mesh = generate_chunk_mesh(&chunk, &registry);
    assert_eq!(mesh.positions.len(), 0);
    assert_eq!(mesh.normals.len(), 0);
    assert_eq!(mesh.uvs.len(), 0);
    assert_eq!(mesh.colors.len(), 0);
    assert_eq!(mesh.indices.len(), 0);
}

#[test]
fn test_isolated_voxel_mesh_counts() {
    let registry = BlockRegistry::new();
    let mut chunk = Chunk::empty(ChunkPos::new(0, 0, 0), 0);
    chunk.set_block(LocalPos::new(3, 4, 5), BlockId(1));
    let mesh = generate_chunk_mesh(&chunk, &registry);
    // 6 faces, 4 vertices and 6 indices each.
    assert_eq!(mesh.positions.len(), 24);
    assert_eq!(mesh.normals.len(), 24);
    assert_eq!(mesh.uvs.len(), 24);
    assert_eq!(mesh.colors.len(), 24);
    assert_eq!(mesh.indices.len(), 36);
    // First face is the up face of the voxel at (3, 4, 5), scale 1.
    assert_eq!(mesh.positions[0], (3, 5, 5));
    assert_eq!(mesh.positions[1], (4, 5, 5));
    assert_eq!(mesh.positions[2], (4, 5, 6));
    assert_eq!(mesh.positions[3], (3, 5, 6));
    assert_eq!(mesh.normals[0], (0, 1, 0));
    assert_eq!(mesh.uvs[0], (0, 0));
    // Stone's flat debug color at every vertex of the face.
    assert_eq!(mesh.colors[0], Rgba { r: 128, g: 128, b: 128, a: 255 });
    // Two counter-clockwise triangles over the face's 4 vertices.
    assert_eq!(&mesh.indices[0..6], &[0, 2, 1, 0, 3, 2]);
    assert_eq!(&mesh.indices[6..12], &[4, 6, 5, 4, 7, 6]);
}

#[test]
fn test_stacked_voxels_share_hidden_face() {
    let registry = BlockRegistry::new();
    let mut chunk = Chunk::empty(ChunkPos::new(0, 0, 0), 0);
    chunk.set_block(LocalPos::new(10, 10, 10), BlockId(1));
    chunk.set_block(LocalPos::new(10, 11, 10), BlockId(1));
    let mesh = generate_chunk_mesh(&chunk, &registry);
    // 10 faces: 6 + 6 minus the shared internal face culled on both sides.
    assert_eq!(mesh.positions.len(), 40);
    assert_eq!(mesh.indices.len(), 60);
}

#[test]
fn test_boundary_faces_always_render() {
    let registry = BlockRegistry::new();
    let mut chunk = Chunk::empty(ChunkPos::new(0, 0, 0), 0);
    // A corner voxel: 3 faces point out of the chunk and still render.
    chunk.set_block(LocalPos::new(0, 0, 0), BlockId(2));
    let mesh = generate_chunk_mesh(&chunk, &registry);
    assert_eq!(mesh.positions.len(), 24);
    assert_eq!(mesh.indices.len(), 36);
}

#[test]
fn test_mesh_scales_with_depth() {
    let registry = BlockRegistry::new();
    let mut chunk = Chunk::empty(ChunkPos::new(0, 0, 0), 3);
    chunk.set_block(LocalPos::new(2, 0, 0), BlockId(1));
    let mesh = generate_chunk_mesh(&chunk, &registry);
    // Scale 8: the up face of the voxel at local X 2 spans [16, 24] at Y 8.
    assert_eq!(mesh.positions.len(), 24);
    assert_eq!(mesh.positions[0], (16, 8, 0));
    assert_eq!(mesh.positions[2], (24, 8, 8));
}

#[test]
fn test_non_solid_blocks_emit_nothing() {
    let registry = BlockRegistry::new();
    let mut chunk = Chunk::empty(ChunkPos::new(0, 0, 0), 0);
    // An unregistered identifier falls back to air properties: not solid.
    chunk.set_block(LocalPos::new(5, 5, 5), BlockId(200));
    let mesh = generate_chunk_mesh(&chunk, &registry);
    assert_eq!(mesh.positions.len(), 0);
    assert_eq!(mesh.indices.len(), 0);
}
