use aeternitas::position::{wrap_horizontal, BlockPos, ChunkPos, LocalPos, CHUNK_VOLUME};

#[test]
fn test_world_wrapping() {
    let pos = ChunkPos::new(501, 0, -501);
    assert_eq!(pos.x, -499);
    assert_eq!(pos.z, 499);
}

#[test]
fn test_block_to_chunk() {
    let block = BlockPos::new(50, 25, -30);
    let chunk = block.chunk_pos();
    assert_eq!(chunk, ChunkPos::new(2, 1, -2));
}

#[test]
fn test_local_pos_index() {
    let local = LocalPos::new(5, 10, 15);
    let idx = local.to_index();
    let recovered = LocalPos::from_index(idx);
    assert_eq!(local, recovered);
}

#[test]
fn test_wrap_range_and_periodicity() {
    for &c in &[-2000, -1500, -501, -500, -1, 0, 1, 499, 500, 501, 1234, 2000] {
        let w = wrap_horizontal(c);
        assert!(-500 <= w && w < 500);
        assert_eq!(wrap_horizontal(c + 1000), w);
        assert_eq!(wrap_horizontal(c - 1000), w);
    }
    assert_eq!(wrap_horizontal(500), -500);
    assert_eq!(wrap_horizontal(-500), -500);
    assert_eq!(wrap_horizontal(999), -1);
    assert_eq!(wrap_horizontal(0), 0);
}

#[test]
fn test_chunk_pos_clamps_y() {
    assert_eq!(ChunkPos::new(0, -100, 0).y, -20);
    assert_eq!(ChunkPos::new(0, 100, 0).y, 19);
    assert_eq!(ChunkPos::new(0, 7, 0).y, 7);
    assert_eq!(BlockPos::new(0, -1000, 0).y, -500);
    assert_eq!(BlockPos::new(0, 1000, 0).y, 499);
}

#[test]
fn test_index_round_trip_all() {
    for idx in 0..CHUNK_VOLUME {
        let p = LocalPos::from_index(idx);
        assert!(p.x < 25 && p.y < 25 && p.z < 25);
        assert_eq!(p.to_index(), idx);
    }
}

#[test]
fn test_chunk_corner_reconstructs_block() {
    let samples = [
        (50, 25, -30),
        (-1, -1, -1),
        (0, 0, 0),
        (-500, -500, -500),
        (499, 499, 499),
        (24, -26, 250),
    ];
    for &(x, y, z) in &samples {
        let b = BlockPos::new(x, y, z);
        let corner = b.chunk_pos().to_world_pos();
        let local = b.local_pos();
        // The corner is the minimum corner of the containing chunk.
        assert!(corner.x <= b.x && b.x < corner.x + 25);
        assert!(corner.y <= b.y && b.y < corner.y + 25);
        assert!(corner.z <= b.z && b.z < corner.z + 25);
        // Corner plus local position reconstructs the block exactly.
        assert_eq!(corner.x + local.x as i32, b.x);
        assert_eq!(corner.y + local.y as i32, b.y);
        assert_eq!(corner.z + local.z as i32, b.z);
    }
}

#[test]
fn test_from_world_pos() {
    assert_eq!(ChunkPos::from_world_pos(0, 0, 0), ChunkPos::new(0, 0, 0));
    assert_eq!(ChunkPos::from_world_pos(24, 24, 24), ChunkPos::new(0, 0, 0));
    assert_eq!(ChunkPos::from_world_pos(25, 0, -1), ChunkPos::new(1, 0, -1));
    assert_eq!(ChunkPos::from_world_pos(-800, -800, -800).y, -20);
}

#[test]
fn test_neighbors_canonical() {
    let pos = ChunkPos::new(499, 19, -500);
    let n = pos.neighbors();
    assert_eq!(n[0], ChunkPos::new(500, 19, -500));
    assert_eq!(n[0].x, -500);
    assert_eq!(n[1], ChunkPos::new(498, 19, -500));
    assert_eq!(n[2].y, 19);
    assert_eq!(n[3].y, 18);
    assert_eq!(n[4].z, -499);
    assert_eq!(n[5].z, 499);
}
