use aeternitas::chunk_manager::{update_chunks_around_player, ChunkManager};
use aeternitas::octree::Octree;
use aeternitas::position::ChunkPos;

#[test]
fn test_registry_roundtrip() {
    let mut manager = ChunkManager::new(16);
    let pos = ChunkPos::new(1, 2, 3);
    assert!(!manager.is_loaded(pos));
    assert_eq!(manager.get_chunk_entity(pos), None);
    manager.register_chunk(pos, 77);
    assert!(manager.is_loaded(pos));
    assert_eq!(manager.get_chunk_entity(pos), Some(77));
    // Re-registering overwrites the handle.
    manager.register_chunk(pos, 78);
    assert_eq!(manager.get_chunk_entity(pos), Some(78));
    manager.unregister_chunk(pos);
    assert!(!manager.is_loaded(pos));
}

#[test]
fn test_should_load_distance_and_force() {
    let mut manager = ChunkManager::new(2);
    assert_eq!(manager.render_distance_vertical, 4);
    let player = ChunkPos::new(0, 0, 0);
    assert!(manager.should_load(ChunkPos::new(2, 4, -2), player));
    assert!(!manager.should_load(ChunkPos::new(3, 0, 0), player));
    assert!(!manager.should_load(ChunkPos::new(0, 5, 0), player));
    // A force-loaded position is desired regardless of distance.
    let far = ChunkPos::new(300, 19, -300);
    manager.force_loaded.push(far);
    assert!(manager.should_load(far, player));
}

#[test]
fn test_chunks_to_load_order_and_count() {
    let manager = ChunkManager::new(1);
    let player = ChunkPos::new(0, 0, 0);
    let candidates = manager.chunks_to_load(player);
    // (2*1+1)^2 horizontal cells times (2*2+1) vertical cells.
    assert_eq!(candidates.len(), 45);
    // X outermost, then Z, then Y innermost.
    assert_eq!(candidates[0], ChunkPos::new(-1, -2, -1));
    assert_eq!(candidates[1], ChunkPos::new(-1, -1, -1));
    assert_eq!(candidates[5], ChunkPos::new(-1, -2, 0));
    assert_eq!(candidates[44], ChunkPos::new(1, 2, 1));
    assert!(candidates.contains(&player));
}

#[test]
fn test_reconcile_loads_unloads_and_keeps() {
    let mut manager = ChunkManager::new(16);
    let forced = ChunkPos::new(5, 0, 0);
    let stale = ChunkPos::new(9, 0, 0);
    manager.register_chunk(forced, 100);
    manager.register_chunk(stale, 101);
    manager.force_loaded.push(forced);

    let desired = vec![(ChunkPos::new(0, 0, 0), 0u8), (ChunkPos::new(1, 0, 0), 2u8)];
    let (loads, unloads) = manager.reconcile(&desired, 1000);

    // Both desired positions were absent: loaded in order with fresh handles.
    assert_eq!(loads.len(), 2);
    assert_eq!(loads[0], (ChunkPos::new(0, 0, 0), 0u8, 1000));
    assert_eq!(loads[1], (ChunkPos::new(1, 0, 0), 2u8, 1001));
    // The stale resident position was neither desired nor forced.
    assert_eq!(unloads.len(), 1);
    assert_eq!(unloads[0], (stale, 101));
    // Afterwards the resident set is the desired set united with the forced set.
    assert!(manager.is_loaded(ChunkPos::new(0, 0, 0)));
    assert!(manager.is_loaded(ChunkPos::new(1, 0, 0)));
    assert!(manager.is_loaded(forced));
    assert!(!manager.is_loaded(stale));
    assert_eq!(manager.get_chunk_entity(forced), Some(100));
}

#[test]
fn test_reconcile_keeps_resident_desired() {
    let mut manager = ChunkManager::new(16);
    let pos = ChunkPos::new(2, 0, 2);
    manager.register_chunk(pos, 42);
    let desired = vec![(pos, 0u8)];
    let (loads, unloads) = manager.reconcile(&desired, 500);
    assert!(loads.is_empty());
    assert!(unloads.is_empty());
    // A kept chunk is not regenerated: it keeps its handle.
    assert_eq!(manager.get_chunk_entity(pos), Some(42));
}

#[test]
fn test_octree_new_and_far_observer() {
    let octree = Octree::new(0, 0, 0, 25, 2);
    assert_eq!(octree.root.size, 100);
    assert_eq!(octree.root.min_x, -50);
    assert!(octree.root.children.is_none());
    let mut octree = octree;
    // Too far from the root: no subdivision happens.
    octree.subdivide_near_player(5000, 0, 0);
    assert!(octree.root.children.is_none());
    assert_eq!(octree.collect_leaves().len(), 1);
}

#[test]
fn test_octree_subdivision_eight_children_partition() {
    let mut octree = Octree::new(0, 0, 0, 25, 2);
    octree.subdivide_near_player(0, 0, 0);
    // A subdivided node has exactly 8 children, never 1 to 7.
    let children = octree.root.children.as_ref().expect("root subdivided");
    assert_eq!(children.len(), 8);
    for child in children.iter() {
        assert_eq!(child.size, 50);
    }
    // Every child is near the observer too, so the tree refines to min size.
    let leaves = octree.collect_leaves();
    assert_eq!(leaves.len(), 64);
    let mut volume: u64 = 0;
    for leaf in &leaves {
        assert!(leaf.children.is_none());
        assert_eq!(leaf.size, 25);
        volume += (leaf.size as u64).pow(3);
    }
    // The leaves partition the root's volume: no gaps, no overlaps.
    assert_eq!(volume, 100u64.pow(3));
    // Leaf cubes are pairwise disjoint: distinct minimum corners suffice at equal size.
    for i in 0..leaves.len() {
        for j in (i + 1)..leaves.len() {
            assert!(
                leaves[i].min_x != leaves[j].min_x
                    || leaves[i].min_y != leaves[j].min_y
                    || leaves[i].min_z != leaves[j].min_z
            );
        }
    }
}

#[test]
fn test_octree_subdivision_is_monotonic() {
    let mut octree = Octree::new(0, 0, 0, 25, 2);
    octree.subdivide_near_player(0, 0, 0);
    assert_eq!(octree.collect_leaves().len(), 64);
    // Moving away never removes children.
    octree.subdivide_near_player(5000, 5000, 5000);
    assert_eq!(octree.collect_leaves().len(), 64);
}

#[test]
fn test_end_to_end_streaming_tick() {
    // Observer at the world origin, finest node edge 25, a large world span.
    let mut octree = Octree::new(0, 0, 0, 25, 6);
    assert_eq!(octree.root.size, 1600);
    let mut manager = ChunkManager::new(16);
    let (loads, unloads) = update_chunks_around_player(&mut manager, &mut octree, 0, 0, 0, 0);
    assert!(unloads.is_empty());
    assert!(!loads.is_empty());

    // Leaves near the origin are finer than distant leaves.
    let leaves = octree.collect_leaves();
    let origin_leaf = leaves
        .iter()
        .find(|l| l.min_x == 0 && l.min_y == 0 && l.min_z == 0)
        .expect("a leaf at the origin");
    assert_eq!(origin_leaf.size, 25);
    assert!(leaves.iter().any(|l| l.size > 25));
    for leaf in &leaves {
        assert!(leaf.size >= 25 && leaf.size <= 1600);
        // Every leaf size is the chunk edge scaled by a power of two.
        let mut s = leaf.size;
        while s > 25 {
            assert_eq!(s % 2, 0);
            s /= 2;
        }
        assert_eq!(s, 25);
    }

    // The streamer spawned a chunk at the origin with depth 0.
    assert!(manager.is_loaded(ChunkPos::new(0, 0, 0)));
    let origin_load = loads
        .iter()
        .find(|l| l.0 == ChunkPos::new(0, 0, 0))
        .expect("origin chunk loaded");
    assert_eq!(origin_load.1, 0);
    // Handles count up from the first fresh handle.
    for (k, load) in loads.iter().enumerate() {
        assert_eq!(load.2, k as u64);
        assert_eq!(manager.get_chunk_entity(load.0), Some(load.2));
    }
}
