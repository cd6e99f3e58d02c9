use aeternitas::block::{BlockId, BlockProperties, BlockRegistry, Rgba, ToolType};
use aeternitas::chunk::Chunk;
use aeternitas::position::{ChunkPos, LocalPos, CHUNK_VOLUME};

#[test]
fn test_registry_defaults() {
    let registry = BlockRegistry::new();
    let air = registry.get(BlockId(0)).expect("air registered");
    assert!(!air.is_solid);
    assert!(air.is_transparent);
    assert_eq!(air.name, "Air");
    let stone = registry.get(BlockId(1)).expect("stone registered");
    assert!(stone.is_solid);
    assert_eq!(stone.name, "Stone");
    assert_eq!(stone.hardness, 15);
    assert_eq!(stone.required_tool, Some(ToolType::Pickaxe));
    assert_eq!(stone.debug_color, Rgba { r: 128, g: 128, b: 128, a: 255 });
    assert_eq!(registry.get(BlockId(2)).expect("dirt registered").name, "Dirt");
    assert_eq!(registry.get(BlockId(3)).expect("grass registered").name, "Grass");
}

#[test]
fn test_get_or_air_never_absent() {
    let registry = BlockRegistry::new();
    // Unregistered identifiers resolve to the air entry, never to nothing.
    for id in [4u16, 7, 100, 65535] {
        let props = registry.get_or_air(BlockId(id));
        assert_eq!(props.id, BlockId(0));
        assert_eq!(props.name, "Air");
        assert!(!props.is_solid);
    }
    assert!(registry.get(BlockId(999)).is_none());
    // Registered identifiers resolve to their own entry.
    assert_eq!(registry.get_or_air(BlockId(3)).name, "Grass");
}

#[test]
fn test_register_last_write_wins() {
    let mut registry = BlockRegistry::new();
    registry.register(BlockProperties {
        id: BlockId(7),
        name: "First".to_string(),
        ..Default::default()
    });
    registry.register(BlockProperties {
        id: BlockId(7),
        name: "Second".to_string(),
        hardness: 42,
        ..Default::default()
    });
    let got = registry.get(BlockId(7)).expect("registered");
    assert_eq!(got.name, "Second");
    assert_eq!(got.hardness, 42);
}

#[test]
fn test_empty_chunk_is_air_and_dirty() {
    let chunk = Chunk::empty(ChunkPos::new(0, 0, 0), 0);
    assert!(chunk.dirty);
    assert_eq!(chunk.depth, 0);
    for idx in 0..CHUNK_VOLUME {
        assert_eq!(chunk.get_block(LocalPos::from_index(idx)), BlockId(0));
    }
    assert!(chunk.iter_blocks().is_empty());
}

#[test]
fn test_set_block_marks_dirty() {
    let mut chunk = Chunk::empty(ChunkPos::new(0, 0, 0), 0);
    chunk.clear_dirty();
    assert!(!chunk.dirty);
    chunk.set_block(LocalPos::new(3, 4, 5), BlockId(1));
    assert!(chunk.dirty);
    assert_eq!(chunk.get_block(LocalPos::new(3, 4, 5)), BlockId(1));
    assert_eq!(chunk.get_block(LocalPos::new(4, 4, 5)), BlockId(0));
}

#[test]
fn test_iter_blocks_skips_air() {
    let mut chunk = Chunk::empty(ChunkPos::new(0, 0, 0), 0);
    chunk.set_block(LocalPos::new(3, 4, 5), BlockId(1));
    chunk.set_block(LocalPos::new(0, 0, 0), BlockId(2));
    let entries = chunk.iter_blocks();
    assert_eq!(entries.len(), 2);
    // Flat index order: (0,0,0) comes before (3,4,5).
    assert_eq!(entries[0], (LocalPos::new(0, 0, 0), BlockId(2)));
    assert_eq!(entries[1], (LocalPos::new(3, 4, 5), BlockId(1)));
}

#[test]
fn test_generation_banding_exact() {
    let heights = vec![10i32; 625];
    let chunk = Chunk::generate_chunk(ChunkPos::new(0, 0, 0), 0, &heights);
    assert!(chunk.dirty);
    // World Y equals local Y here: stone strictly below 7, dirt in [7, 9),
    // grass in [9, 11], air above.
    for y in 0..=6u8 {
        assert_eq!(chunk.get_block(LocalPos::new(12, y, 12)), BlockId(1));
    }
    for y in 7..=8u8 {
        assert_eq!(chunk.get_block(LocalPos::new(12, y, 12)), BlockId(2));
    }
    for y in 9..=11u8 {
        assert_eq!(chunk.get_block(LocalPos::new(12, y, 12)), BlockId(3));
    }
    for y in 12..25u8 {
        assert_eq!(chunk.get_block(LocalPos::new(12, y, 12)), BlockId(0));
    }
}

#[test]
fn test_generation_banding_scales_with_depth() {
    let heights = vec![10i32; 625];
    // Depth 2: voxel spacing 4, so world Y steps 0, 4, 8, 12, ...; the grass
    // band [9, 14] catches world Y 12.
    let chunk = Chunk::generate_chunk(ChunkPos::new(0, 0, 0), 2, &heights);
    assert_eq!(chunk.depth, 2);
    assert_eq!(chunk.get_block(LocalPos::new(0, 0, 0)), BlockId(1));
    assert_eq!(chunk.get_block(LocalPos::new(0, 1, 0)), BlockId(1));
    assert_eq!(chunk.get_block(LocalPos::new(0, 2, 0)), BlockId(2));
    assert_eq!(chunk.get_block(LocalPos::new(0, 3, 0)), BlockId(3));
    assert_eq!(chunk.get_block(LocalPos::new(0, 4, 0)), BlockId(0));
}

#[test]
fn test_generation_is_idempotent() {
    let mut heights = vec![0i32; 625];
    for (i, h) in heights.iter_mut().enumerate() {
        *h = (i as i32 % 37) - 10;
    }
    let pos = ChunkPos::new(3, -2, 7);
    let a = Chunk::generate_chunk(pos, 1, &heights);
    let b = Chunk::generate_chunk(pos, 1, &heights);
    for idx in 0..CHUNK_VOLUME {
        let p = LocalPos::from_index(idx);
        assert_eq!(a.get_block(p), b.get_block(p));
    }
}

#[test]
fn test_test_chunk_layers() {
    let chunk = Chunk::test_chunk(ChunkPos::new(0, 0, 0), 0);
    for y in 0..5u8 {
        assert_eq!(chunk.get_block(LocalPos::new(7, y, 7)), BlockId(1));
    }
    assert_eq!(chunk.get_block(LocalPos::new(7, 5, 7)), BlockId(2));
    assert_eq!(chunk.get_block(LocalPos::new(7, 6, 7)), BlockId(3));
    assert_eq!(chunk.get_block(LocalPos::new(7, 7, 7)), BlockId(0));
}
