//! Chunk streamer: a registry of resident chunks keyed by canonical position,
//! a set of force-loaded positions exempt from eviction, and the per-tick
//! reconciliation of the octree's desired leaf cells against that registry.
//!
//! Reconciliation loads desired positions that are absent (while the registry
//! is below its hard cap; at the cap a load is skipped for the tick, not an
//! error), unloads resident positions that are neither desired nor
//! force-loaded, and keeps the rest untouched.

use vstd::prelude::*;

verus! {

use vstd::arithmetic::power2::{pow2, lemma2_to64, lemma_pow2_strictly_increases};
use vstd::set_lib::lemma_len_subset;
use crate::position::{ChunkPos, CHUNK_SIZE};
use crate::chunk::MAX_LOD_DEPTH;
use crate::octree::{Octree, OctreeNode, COORD_LIMIT, subdivide_rel, lemma_leaves_wf};

/// Hard cap on the number of resident chunks.
pub const MAX_RESIDENT_CHUNKS: usize = 10000;

/// The registry map denoted by an association list of resident entries.
pub open spec fn registry_of(s: Seq<(ChunkPos, u64)>) -> Map<ChunkPos, u64>
    decreases s.len(),
{
    if s.len() == 0 {
        Map::empty()
    } else {
        registry_of(s.drop_last()).insert(s.last().0, s.last().1)
    }
}

/// No two entries share a position.
pub open spec fn unique_keys(s: Seq<(ChunkPos, u64)>) -> bool {
    forall|i: int, j: int| 0 <= i < j < s.len() ==> (#[trigger] s[i]).0 != (#[trigger] s[j]).0
}

/// The set of positions a desired-target list mentions.
pub open spec fn desired_set(ds: Seq<(ChunkPos, u8)>) -> Set<ChunkPos>
    decreases ds.len(),
{
    if ds.len() == 0 {
        Set::empty()
    } else {
        desired_set(ds.drop_last()).insert(ds.last().0)
    }
}

/// What the load half of one reconciliation pass computes, walking the
/// desired targets in order: the registry after all loads, and the list of
/// loads issued. A target loads if and only if its position is absent and the
/// registry is below the cap; the `k`-th load is handed handle `h0 + k`.
pub open spec fn spec_plan_loads(
    m: Map<ChunkPos, u64>,
    ds: Seq<(ChunkPos, u8)>,
    h0: int,
) -> (Map<ChunkPos, u64>, Seq<(ChunkPos, u8, u64)>)
    decreases ds.len(),
{
    if ds.len() == 0 {
        (m, Seq::empty())
    } else {
        let prev = spec_plan_loads(m, ds.drop_last(), h0);
        let d = ds.last();
        if !prev.0.contains_key(d.0) && prev.0.dom().len() < MAX_RESIDENT_CHUNKS {
            (
                prev.0.insert(d.0, (h0 + prev.1.len()) as u64),
                prev.1.push((d.0, d.1, (h0 + prev.1.len()) as u64)),
            )
        } else {
            prev
        }
    }
}

/// The unload half of one reconciliation pass: the resident entries, in
/// registry order, whose positions are neither desired nor force-loaded.
pub open spec fn spec_plan_unloads(
    s: Seq<(ChunkPos, u64)>,
    ds: Seq<(ChunkPos, u8)>,
    forced: Seq<ChunkPos>,
) -> Seq<(ChunkPos, u64)>
    decreases s.len(),
{
    if s.len() == 0 {
        Seq::empty()
    } else {
        let rest = spec_plan_unloads(s.drop_last(), ds, forced);
        if !desired_set(ds).contains(s.last().0) && !forced.contains(s.last().0) {
            rest.push(s.last())
        } else {
            rest
        }
    }
}

/// A position is in the registry map exactly when some entry carries it.
proof fn lemma_registry_contains(s: Seq<(ChunkPos, u64)>, p: ChunkPos)
    ensures
        registry_of(s).contains_key(p) <==> exists|i: int|
            0 <= i < s.len() && (#[trigger] s[i]).0 == p,
    decreases s.len(),
{
    if s.len() > 0 {
        lemma_registry_contains(s.drop_last(), p);
        if s.last().0 == p {
            assert(s[s.len() - 1].0 == p);
        } else if exists|i: int| 0 <= i < s.len() && (#[trigger] s[i]).0 == p {
            let i = choose|i: int| 0 <= i < s.len() && (#[trigger] s[i]).0 == p;
            if i < s.len() - 1 {
                assert(s.drop_last()[i].0 == p);
            }
        }
    }
}

/// With unique keys, the entry carrying a position gives the map's value.
proof fn lemma_registry_value(s: Seq<(ChunkPos, u64)>, i: int)
    requires
        unique_keys(s),
        0 <= i < s.len(),
    ensures
        registry_of(s).contains_key(s[i].0),
        registry_of(s)[s[i].0] == s[i].1,
    decreases s.len(),
{
    if i == s.len() - 1 {
    } else {
        lemma_registry_value(s.drop_last(), i);
        assert(s.drop_last()[i] == s[i]);
    }
}

/// With unique keys, the registry map has exactly one key per entry.
proof fn lemma_registry_dom_len(s: Seq<(ChunkPos, u64)>)
    requires
        unique_keys(s),
    ensures
        registry_of(s).dom().finite(),
        registry_of(s).dom().len() == s.len(),
    decreases s.len(),
{
    if s.len() > 0 {
        assert(forall|i: int, j: int|
            0 <= i < j < s.drop_last().len() ==> (#[trigger] s.drop_last()[i]).0 != (
            #[trigger] s.drop_last()[j]).0);
        lemma_registry_dom_len(s.drop_last());
        lemma_registry_contains(s.drop_last(), s.last().0);
        assert(forall|i: int| 0 <= i < s.len() - 1 ==> (#[trigger] s.drop_last()[i]) == s[i]);
        assert(!registry_of(s.drop_last()).contains_key(s.last().0));
    }
}

/// Removing an entry from a unique-keyed list removes its key from the map.
proof fn lemma_registry_remove(s: Seq<(ChunkPos, u64)>, i: int)
    requires
        unique_keys(s),
        0 <= i < s.len(),
    ensures
        unique_keys(s.remove(i)),
        registry_of(s.remove(i)) =~= registry_of(s).remove(s[i].0),
    decreases s.len(),
{
    assert forall|a: int, b: int| 0 <= a < b < s.remove(i).len() implies (
    #[trigger] s.remove(i)[a]).0 != (#[trigger] s.remove(i)[b]).0 by {
        assert(s.remove(i)[a] == if a < i {
            s[a]
        } else {
            s[a + 1]
        });
        assert(s.remove(i)[b] == if b < i {
            s[b]
        } else {
            s[b + 1]
        });
    }
    if i == s.len() - 1 {
        assert(s.remove(i) =~= s.drop_last());
        lemma_registry_contains(s.drop_last(), s[i].0);
        assert(forall|j: int| 0 <= j < s.len() - 1 ==> (#[trigger] s.drop_last()[j]) == s[j]);
        assert(!registry_of(s.drop_last()).contains_key(s[i].0));
    } else {
        assert(forall|j: int| 0 <= j < s.len() - 1 ==> (#[trigger] s.drop_last()[j]) == s[j]);
        lemma_registry_remove(s.drop_last(), i);
        assert(s.remove(i).drop_last() =~= s.drop_last().remove(i));
        assert(s.remove(i).last() == s.last());
        assert(s[i].0 != s.last().0);
    }
}

/// A position is desired exactly when some target mentions it.
proof fn lemma_desired_contains(ds: Seq<(ChunkPos, u8)>, p: ChunkPos)
    ensures
        desired_set(ds).contains(p) <==> exists|i: int|
            0 <= i < ds.len() && (#[trigger] ds[i]).0 == p,
    decreases ds.len(),
{
    if ds.len() > 0 {
        lemma_desired_contains(ds.drop_last(), p);
        if ds.last().0 == p {
            assert(ds[ds.len() - 1].0 == p);
        } else if exists|i: int| 0 <= i < ds.len() && (#[trigger] ds[i]).0 == p {
            let i = choose|i: int| 0 <= i < ds.len() && (#[trigger] ds[i]).0 == p;
            if i < ds.len() - 1 {
                assert(ds.drop_last()[i].0 == p);
            }
        }
    }
}

/// What the planned unloads of a unique-keyed registry satisfy: every listed
/// entry is resident, carries the registry's value, and is neither desired
/// nor forced; the listed positions are distinct; and every resident position
/// that is neither desired nor forced is listed.
proof fn lemma_plan_unloads_props(
    s: Seq<(ChunkPos, u64)>,
    ds: Seq<(ChunkPos, u8)>,
    forced: Seq<ChunkPos>,
)
    requires
        unique_keys(s),
    ensures
        ({
            let us = spec_plan_unloads(s, ds, forced);
            let m = registry_of(s);
            &&& forall|i: int|
                0 <= i < us.len() ==> {
                    let e = #[trigger] us[i];
                    &&& m.contains_key(e.0)
                    &&& m[e.0] == e.1
                    &&& !desired_set(ds).contains(e.0)
                    &&& !forced.contains(e.0)
                }
            &&& forall|i: int, j: int|
                0 <= i < j < us.len() ==> (#[trigger] us[i]).0 != (#[trigger] us[j]).0
            &&& forall|k: ChunkPos|
                m.contains_key(k) && !desired_set(ds).contains(k) && !forced.contains(k)
                    ==> exists|i: int| 0 <= i < us.len() && (#[trigger] us[i]).0 == k
            &&& forall|i: int|
                0 <= i < us.len() ==> exists|j: int| 0 <= j < s.len() && (#[trigger] us[i]) == s[j]
        }),
    decreases s.len(),
{
    if s.len() > 0 {
        let dl = s.drop_last();
        assert(forall|j: int| 0 <= j < s.len() - 1 ==> (#[trigger] dl[j]) == s[j]);
        lemma_plan_unloads_props(dl, ds, forced);
        lemma_registry_contains(dl, s.last().0);
        let us = spec_plan_unloads(s, ds, forced);
        let prev = spec_plan_unloads(dl, ds, forced);
        let m = registry_of(s);
        let mprev = registry_of(dl);
        // Entries of the previous plan keep their registry value: their keys
        // are old keys, distinct from the appended entry's key.
        assert forall|i: int| 0 <= i < prev.len() implies {
            let e = #[trigger] prev[i];
            &&& m.contains_key(e.0)
            &&& m[e.0] == e.1
            &&& !desired_set(ds).contains(e.0)
            &&& !forced.contains(e.0)
        } by {
            let e = prev[i];
            let j = choose|j: int| 0 <= j < dl.len() && prev[i] == dl[j];
            assert(s[j] == e);
            assert(e.0 != s.last().0);
        }
        assert forall|k: ChunkPos|
            m.contains_key(k) && !desired_set(ds).contains(k) && !forced.contains(
                k,
            ) implies exists|i: int| 0 <= i < us.len() && (#[trigger] us[i]).0 == k by {
            if k == s.last().0 {
                assert(us[us.len() - 1].0 == k);
            } else {
                assert(mprev.contains_key(k));
                let i = choose|i: int| 0 <= i < prev.len() && (#[trigger] prev[i]).0 == k;
                assert(us[i].0 == k);
            }
        }
        assert forall|i: int| 0 <= i < us.len() implies exists|j: int|
            0 <= j < s.len() && (#[trigger] us[i]) == s[j] by {
            if i < prev.len() {
                let jj = choose|j: int| 0 <= j < dl.len() && prev[i] == dl[j];
                assert(us[i] == s[jj]);
            } else {
                assert(us[i] == s[s.len() - 1]);
            }
        }
        assert forall|i: int, j: int| 0 <= i < j < us.len() implies (#[trigger] us[i]).0 != (
        #[trigger] us[j]).0 by {
            if j < prev.len() {
            } else {
                assert(us[j] == s.last());
                assert(us[i] == prev[i]);
                assert(!mprev.contains_key(s.last().0));
            }
        }
    }
}

/// The registry after removing the keys of a list of entries, in order.
pub open spec fn remove_all(m: Map<ChunkPos, u64>, us: Seq<(ChunkPos, u64)>) -> Map<ChunkPos, u64>
    decreases us.len(),
{
    if us.len() == 0 {
        m
    } else {
        remove_all(m, us.drop_last()).remove(us.last().0)
    }
}

/// Removing a list of keys keeps exactly the mappings whose key is not listed.
proof fn lemma_remove_all(m: Map<ChunkPos, u64>, us: Seq<(ChunkPos, u64)>, k: ChunkPos)
    ensures
        remove_all(m, us).contains_key(k) <==> m.contains_key(k) && !exists|i: int|
            0 <= i < us.len() && (#[trigger] us[i]).0 == k,
        remove_all(m, us).contains_key(k) ==> remove_all(m, us)[k] == m[k],
    decreases us.len(),
{
    if us.len() > 0 {
        lemma_remove_all(m, us.drop_last(), k);
        if us.last().0 != k && exists|i: int| 0 <= i < us.len() && (#[trigger] us[i]).0 == k {
            let i = choose|i: int| 0 <= i < us.len() && (#[trigger] us[i]).0 == k;
            assert(us.drop_last()[i].0 == k);
        }
        if exists|i: int| 0 <= i < us.drop_last().len() && (#[trigger] us.drop_last()[i]).0 == k {
            let i = choose|i: int|
                0 <= i < us.drop_last().len() && (#[trigger] us.drop_last()[i]).0 == k;
            assert(us[i].0 == k);
        }
    }
}

/// What one whole reconciliation pass guarantees, relating the registry map
/// and forced list before to the registry map and the load/unload lists
/// after. `m1` is the intermediate registry once all loads are applied.
pub open spec fn reconcile_post(
    m0: Map<ChunkPos, u64>,
    forced: Seq<ChunkPos>,
    ds: Seq<(ChunkPos, u8)>,
    h0: int,
    m_final: Map<ChunkPos, u64>,
    loads: Seq<(ChunkPos, u8, u64)>,
    unloads: Seq<(ChunkPos, u64)>,
) -> bool {
    let plan = spec_plan_loads(m0, ds, h0);
    let m1 = plan.0;
    &&& loads == plan.1
    &&& forall|i: int|
        0 <= i < unloads.len() ==> {
            let e = #[trigger] unloads[i];
            &&& m1.contains_key(e.0)
            &&& m1[e.0] == e.1
            &&& !desired_set(ds).contains(e.0)
            &&& !forced.contains(e.0)
        }
    &&& forall|i: int, j: int|
        0 <= i < j < unloads.len() ==> (#[trigger] unloads[i]).0 != (#[trigger] unloads[j]).0
    &&& forall|k: ChunkPos|
        m1.contains_key(k) && !desired_set(ds).contains(k) && !forced.contains(k) ==> exists|i: int|
            0 <= i < unloads.len() && (#[trigger] unloads[i]).0 == k
    &&& forall|k: ChunkPos|
        #[trigger] m_final.contains_key(k) <==> m1.contains_key(k) && (desired_set(ds).contains(k)
            || forced.contains(k))
    &&& forall|k: ChunkPos| #[trigger] m_final.contains_key(k) ==> m_final[k] == m1[k]
}

/// Registry of resident chunks plus streaming policy state: force-loaded
/// positions are never evicted; the render distances bound the legacy
/// distance-based load test.
pub struct ChunkManager {
    /// Resident entries: canonical position to renderer-side handle.
    pub loaded_chunks: Vec<(ChunkPos, u64)>,
    /// Positions exempt from eviction, desired regardless of distance.
    pub force_loaded: Vec<ChunkPos>,
    pub render_distance_horizontal: i32,
    pub render_distance_vertical: i32,
}

impl View for ChunkManager {
    type V = Map<ChunkPos, u64>;

    open spec fn view(&self) -> Map<ChunkPos, u64> {
        registry_of(self.loaded_chunks@)
    }
}

impl Default for ChunkManager {
    /// An empty registry with the stock render distances.
    fn default() -> (r: ChunkManager)
        ensures
            r.wf(),
            r@ == Map::<ChunkPos, u64>::empty(),
            r.force_loaded@ == Seq::<ChunkPos>::empty(),
            r.render_distance_horizontal == 16,
            r.render_distance_vertical == 8,
    {
        ChunkManager {
            loaded_chunks: Vec::new(),
            force_loaded: Vec::new(),
            render_distance_horizontal: 16,
            render_distance_vertical: 8,
        }
    }
}

impl ChunkManager {
    /// A manager is well formed when its resident entries have distinct
    /// positions and its render distances are in the supported range.
    pub open spec fn wf(self) -> bool {
        &&& unique_keys(self.loaded_chunks@)
        &&& 0 <= self.render_distance_horizontal <= 100
        &&& 0 <= self.render_distance_vertical <= 200
    }

    /// An empty registry with the given horizontal render distance; the
    /// vertical distance is twice the horizontal one.
    pub fn new(render_distance_horizontal: i32) -> (r: ChunkManager)
        requires
            0 <= render_distance_horizontal <= 100,
        ensures
            r.wf(),
            r@ == Map::<ChunkPos, u64>::empty(),
            r.force_loaded@ == Seq::<ChunkPos>::empty(),
            r.render_distance_horizontal == render_distance_horizontal,
            r.render_distance_vertical == 2 * render_distance_horizontal,
    {
        ChunkManager {
            loaded_chunks: Vec::new(),
            force_loaded: Vec::new(),
            render_distance_horizontal,
            render_distance_vertical: render_distance_horizontal * 2,
        }
    }

    /// Whether a chunk position is resident.
    pub fn is_loaded(&self, pos: ChunkPos) -> (r: bool)
        ensures
            r == self@.contains_key(pos),
    {
        let mut i: usize = 0;
        while i < self.loaded_chunks.len()
            invariant
                i <= self.loaded_chunks@.len(),
                forall|j: int| 0 <= j < i ==> (#[trigger] self.loaded_chunks@[j]).0 != pos,
            decreases self.loaded_chunks@.len() - i,
        {
            if self.loaded_chunks[i].0 == pos {
                proof {
                    lemma_registry_contains(self.loaded_chunks@, pos);
                }
                return true;
            }
            i = i + 1;
        }
        proof {
            lemma_registry_contains(self.loaded_chunks@, pos);
        }
        false
    }

    /// Record a resident chunk under its position, overwriting any previous
    /// handle for that position.
    pub fn register_chunk(&mut self, pos: ChunkPos, entity: u64)
        requires
            old(self).wf(),
        ensures
            final(self)@ == old(self)@.insert(pos, entity),
            final(self).wf(),
            final(self).force_loaded == old(self).force_loaded,
            final(self).render_distance_horizontal == old(self).render_distance_horizontal,
            final(self).render_distance_vertical == old(self).render_distance_vertical,
    {
        self.unregister_chunk(pos);
        let ghost s0 = self.loaded_chunks@;
        self.loaded_chunks.push((pos, entity));
        proof {
            assert(self.loaded_chunks@.drop_last() =~= s0);
            lemma_registry_contains(s0, pos);
            assert forall|i: int, j: int| 0 <= i < j < self.loaded_chunks@.len() implies (
            #[trigger] self.loaded_chunks@[i]).0 != (#[trigger] self.loaded_chunks@[j]).0 by {
                if j == self.loaded_chunks@.len() - 1 {
                    assert(s0[i] == self.loaded_chunks@[i]);
                }
            }
            assert(old(self)@.remove(pos).insert(pos, entity) =~= old(self)@.insert(pos, entity));
        }
    }

    /// Drop the resident entry for a position, if any.
    pub fn unregister_chunk(&mut self, pos: ChunkPos)
        requires
            old(self).wf(),
        ensures
            final(self)@ == old(self)@.remove(pos),
            final(self).wf(),
            final(self).force_loaded == old(self).force_loaded,
            final(self).render_distance_horizontal == old(self).render_distance_horizontal,
            final(self).render_distance_vertical == old(self).render_distance_vertical,
    {
        let mut i: usize = 0;
        while i < self.loaded_chunks.len()
            invariant
                old(self).wf(),
                self.loaded_chunks == old(self).loaded_chunks,
                self.force_loaded == old(self).force_loaded,
                self.render_distance_horizontal == old(self).render_distance_horizontal,
                self.render_distance_vertical == old(self).render_distance_vertical,
                i <= self.loaded_chunks@.len(),
                forall|j: int| 0 <= j < i ==> (#[trigger] self.loaded_chunks@[j]).0 != pos,
            decreases self.loaded_chunks@.len() - i,
        {
            if self.loaded_chunks[i].0 == pos {
                proof {
                    lemma_registry_remove(self.loaded_chunks@, i as int);
                }
                self.loaded_chunks.remove(i);
                return ;
            }
            i = i + 1;
        }
        proof {
            lemma_registry_contains(self.loaded_chunks@, pos);
            assert(old(self)@.remove(pos) =~= old(self)@);
        }
    }

    /// The renderer-side handle registered for a position, if resident.
    pub fn get_chunk_entity(&self, pos: ChunkPos) -> (r: Option<u64>)
        requires
            self.wf(),
        ensures
            match r {
                Some(e) => self@.contains_key(pos) && e == self@[pos],
                None => !self@.contains_key(pos),
            },
    {
        let mut i: usize = 0;
        while i < self.loaded_chunks.len()
            invariant
                self.wf(),
                i <= self.loaded_chunks@.len(),
                forall|j: int| 0 <= j < i ==> (#[trigger] self.loaded_chunks@[j]).0 != pos,
            decreases self.loaded_chunks@.len() - i,
        {
            if self.loaded_chunks[i].0 == pos {
                proof {
                    lemma_registry_value(self.loaded_chunks@, i as int);
                }
                return Some(self.loaded_chunks[i].1);
            }
            i = i + 1;
        }
        proof {
            lemma_registry_contains(self.loaded_chunks@, pos);
        }
        None
    }

    /// The legacy distance-based load test: a position should be loaded when
    /// it is force-loaded; otherwise only while the registry is below its
    /// cap and the position is within the render distances of the player.
    pub open spec fn should_load_spec(self, chunk_pos: ChunkPos, player_chunk: ChunkPos) -> bool {
        if self.force_loaded@.contains(chunk_pos) {
            true
        } else if self@.dom().len() >= MAX_RESIDENT_CHUNKS {
            false
        } else {
            &&& -self.render_distance_horizontal <= chunk_pos.x - player_chunk.x
                <= self.render_distance_horizontal
            &&& -self.render_distance_horizontal <= chunk_pos.z - player_chunk.z
                <= self.render_distance_horizontal
            &&& -self.render_distance_vertical <= chunk_pos.y - player_chunk.y
                <= self.render_distance_vertical
        }
    }

    /// Decide the legacy distance-based load test.
    pub fn should_load(&self, chunk_pos: ChunkPos, player_chunk: ChunkPos) -> (r: bool)
        requires
            self.wf(),
            chunk_pos.wf(),
            player_chunk.wf(),
        ensures
            r == self.should_load_spec(chunk_pos, player_chunk),
    {
        let mut i: usize = 0;
        while i < self.force_loaded.len()
            invariant
                i <= self.force_loaded@.len(),
                forall|j: int| 0 <= j < i ==> self.force_loaded@[j] != chunk_pos,
            decreases self.force_loaded@.len() - i,
        {
            if self.force_loaded[i] == chunk_pos {
                return true;
            }
            i = i + 1;
        }
        proof {
            lemma_registry_dom_len(self.loaded_chunks@);
        }
        if self.loaded_chunks.len() >= MAX_RESIDENT_CHUNKS {
            return false;
        }
        let dx = chunk_pos.x - player_chunk.x;
        let dz = chunk_pos.z - player_chunk.z;
        let dy = chunk_pos.y - player_chunk.y;
        -self.render_distance_horizontal <= dx && dx <= self.render_distance_horizontal
            && -self.render_distance_horizontal <= dz && dz <= self.render_distance_horizontal
            && -self.render_distance_vertical <= dy && dy <= self.render_distance_vertical
    }

    /// The `j`-th candidate position around the player, walking X outermost,
    /// then Z, then Y innermost, each axis over its full render distance.
    pub open spec fn candidate_spec(self, player_chunk: ChunkPos, j: int) -> ChunkPos {
        let h = self.render_distance_horizontal as int;
        let v = self.render_distance_vertical as int;
        let span_y = 2 * v + 1;
        let span_z = 2 * h + 1;
        ChunkPos::new_spec(
            player_chunk.x + j / (span_z * span_y) - h,
            player_chunk.y + j % span_y - v,
            player_chunk.z + (j % (span_z * span_y)) / span_y - h,
        )
    }

    /// All candidate positions within the render distances of the player,
    /// in X-outer, Z-middle, Y-inner order.
    pub fn chunks_to_load(&self, player_chunk: ChunkPos) -> (r: Vec<ChunkPos>)
        requires
            self.wf(),
            player_chunk.wf(),
        ensures
            r@.len() == (2 * self.render_distance_horizontal + 1) * (2
                * self.render_distance_horizontal + 1) * (2 * self.render_distance_vertical + 1),
            forall|j: int| 0 <= j < r@.len() ==> #[trigger] r@[j] == self.candidate_spec(
                player_chunk,
                j,
            ),
            forall|j: int| 0 <= j < r@.len() ==> (#[trigger] r@[j]).wf(),
    {
        let h: i32 = self.render_distance_horizontal;
        let v: i32 = self.render_distance_vertical;
        let span_y: usize = (2 * v + 1) as usize;
        let span_z: usize = (2 * h + 1) as usize;
        proof {
            assert(span_z * span_y <= 201 * 401 && span_z * (span_z * span_y) <= 201 * 201 * 401)
                by (nonlinear_arith)
                requires
                    0 < span_z <= 201,
                    0 < span_y <= 401,
            ;
        }
        let stride: usize = span_z * span_y;
        let total: usize = span_z * stride;
        let mut r: Vec<ChunkPos> = Vec::new();
        let mut j: usize = 0;
        while j < total
            invariant
                self.wf(),
                player_chunk.wf(),
                h == self.render_distance_horizontal,
                v == self.render_distance_vertical,
                span_y == 2 * v + 1,
                span_z == 2 * h + 1,
                stride == span_z * span_y,
                total == span_z * stride,
                stride <= 201 * 401,
                total <= 201 * 201 * 401,
                j <= total,
                r@.len() == j,
                forall|q: int|
                    0 <= q < j ==> #[trigger] r@[q] == self.candidate_spec(player_chunk, q),
                forall|q: int| 0 <= q < j ==> (#[trigger] r@[q]).wf(),
            decreases total - j,
        {
            let jx: usize = j / stride;
            let rem: usize = j % stride;
            let jz: usize = rem / span_y;
            let jy: usize = rem % span_y;
            proof {
                vstd::arithmetic::div_mod::lemma_mod_bound(j as int, stride as int);
                vstd::arithmetic::div_mod::lemma_mod_bound(rem as int, span_y as int);
                vstd::arithmetic::div_mod::lemma_mod_bound(j as int, span_y as int);
                assert(jx < span_z) by (nonlinear_arith)
                    requires
                        jx == j as int / stride as int,
                        j < span_z * stride,
                        stride > 0,
                ;
                assert(jz < span_z) by (nonlinear_arith)
                    requires
                        jz == rem as int / span_y as int,
                        rem < span_z * span_y,
                        span_y > 0,
                ;
                vstd::arithmetic::div_mod::lemma_breakdown(j as int, span_y as int, span_z as int);
                assert(span_y * span_z == stride) by (nonlinear_arith)
                    requires
                        stride == span_z * span_y,
                ;
                vstd::arithmetic::div_mod::lemma_mod_multiples_vanish(
                    (j as int / span_y as int) % span_z as int,
                    j as int % span_y as int,
                    span_y as int,
                );
                vstd::arithmetic::div_mod::lemma_small_mod(
                    (j as int % span_y as int) as nat,
                    span_y as nat,
                );
                assert(jy == j as int % span_y as int);
            }
            let pos = ChunkPos::new(
                player_chunk.x + jx as i32 - h,
                player_chunk.y + jy as i32 - v,
                player_chunk.z + jz as i32 - h,
            );
            r.push(pos);
            j = j + 1;
        }
        proof {
            assert(span_z * (span_z * span_y) == (2 * h + 1) * (2 * h + 1) * (2 * v + 1))
                by (nonlinear_arith)
                requires
                    span_z == 2 * h + 1,
                    span_y == 2 * v + 1,
            ;
        }
        r
    }

    /// One reconciliation pass against a desired-target list. Loads each
    /// absent desired position (below the cap) with the chunk's depth and a
    /// fresh handle counted up from `first_handle`; unloads every resident
    /// position that is neither desired nor force-loaded; keeps the rest.
    /// Returns the loads and unloads issued, for the caller to act on.
    pub fn reconcile(&mut self, desired: &Vec<(ChunkPos, u8)>, first_handle: u64) -> (r: (
        Vec<(ChunkPos, u8, u64)>,
        Vec<(ChunkPos, u64)>,
    ))
        requires
            old(self).wf(),
            first_handle + MAX_RESIDENT_CHUNKS <= u64::MAX,
        ensures
            final(self).wf(),
            final(self).force_loaded == old(self).force_loaded,
            final(self).render_distance_horizontal == old(self).render_distance_horizontal,
            final(self).render_distance_vertical == old(self).render_distance_vertical,
            reconcile_post(
                old(self)@,
                old(self).force_loaded@,
                desired@,
                first_handle as int,
                final(self)@,
                r.0@,
                r.1@,
            ),
    {
        let ghost m0 = self@;
        let ghost d0 = self@.dom().len();
        proof {
            lemma_registry_dom_len(self.loaded_chunks@);
        }
        // Load pass: walk the desired targets in order.
        let mut loads: Vec<(ChunkPos, u8, u64)> = Vec::new();
        let mut i: usize = 0;
        while i < desired.len()
            invariant
                self.wf(),
                self.force_loaded == old(self).force_loaded,
                self.render_distance_horizontal == old(self).render_distance_horizontal,
                self.render_distance_vertical == old(self).render_distance_vertical,
                i <= desired@.len(),
                first_handle + MAX_RESIDENT_CHUNKS <= u64::MAX,
                loads@.len() <= MAX_RESIDENT_CHUNKS,
                self@.dom().len() == d0 + loads@.len(),
                d0 <= self@.dom().len(),
                (self@, loads@) == spec_plan_loads(
                    m0,
                    desired@.take(i as int),
                    first_handle as int,
                ),
            decreases desired@.len() - i,
        {
            proof {
                assert(desired@.take(i + 1).drop_last() =~= desired@.take(i as int));
                lemma_registry_dom_len(self.loaded_chunks@);
            }
            let d = desired[i];
            if !self.is_loaded(d.0) && self.loaded_chunks.len() < MAX_RESIDENT_CHUNKS {
                let handle: u64 = first_handle + loads.len() as u64;
                self.register_chunk(d.0, handle);
                loads.push((d.0, d.1, handle));
                proof {
                    lemma_registry_dom_len(self.loaded_chunks@);
                }
            }
            i = i + 1;
        }
        proof {
            assert(desired@.take(desired@.len() as int) =~= desired@);
        }
        let ghost m1 = self@;
        let ghost s1 = self.loaded_chunks@;
        // Unload pass: collect the resident entries that are neither desired
        // nor force-loaded, then drop them from the registry.
        let mut unloads: Vec<(ChunkPos, u64)> = Vec::new();
        let mut j: usize = 0;
        while j < self.loaded_chunks.len()
            invariant
                self.wf(),
                self.loaded_chunks@ == s1,
                j <= s1.len(),
                unloads@ == spec_plan_unloads(
                    s1.take(j as int),
                    desired@,
                    self.force_loaded@,
                ),
            decreases s1.len() - j,
        {
            proof {
                assert(s1.take(j + 1).drop_last() =~= s1.take(j as int));
            }
            let e = self.loaded_chunks[j];
            let in_desired = contains_target(desired, e.0);
            let in_forced = contains_pos(&self.force_loaded, e.0);
            if !in_desired && !in_forced {
                unloads.push(e);
            }
            j = j + 1;
        }
        proof {
            assert(s1.take(s1.len() as int) =~= s1);
            lemma_plan_unloads_props(s1, desired@, self.force_loaded@);
        }
        let mut k: usize = 0;
        while k < unloads.len()
            invariant
                self.wf(),
                self.force_loaded == old(self).force_loaded,
                self.render_distance_horizontal == old(self).render_distance_horizontal,
                self.render_distance_vertical == old(self).render_distance_vertical,
                k <= unloads@.len(),
                self@ == remove_all(m1, unloads@.take(k as int)),
            decreases unloads@.len() - k,
        {
            proof {
                assert(unloads@.take(k + 1).drop_last() =~= unloads@.take(k as int));
            }
            self.unregister_chunk(unloads[k].0);
            k = k + 1;
        }
        proof {
            assert(unloads@.take(unloads@.len() as int) =~= unloads@);
            assert forall|key: ChunkPos| #[trigger]
                self@.contains_key(key) <==> m1.contains_key(key) && (desired_set(
                    desired@,
                ).contains(key) || self.force_loaded@.contains(key)) by {
                lemma_remove_all(m1, unloads@, key);
            }
            assert forall|key: ChunkPos| #[trigger] self@.contains_key(key) implies self@[key]
                == m1[key] by {
                lemma_remove_all(m1, unloads@, key);
            }
        }
        (loads, unloads)
    }
}

/// Whether a desired-target list mentions a position.
fn contains_target(desired: &Vec<(ChunkPos, u8)>, pos: ChunkPos) -> (r: bool)
    ensures
        r == desired_set(desired@).contains(pos),
{
    let mut i: usize = 0;
    while i < desired.len()
        invariant
            i <= desired@.len(),
            forall|j: int| 0 <= j < i ==> (#[trigger] desired@[j]).0 != pos,
        decreases desired@.len() - i,
    {
        if desired[i].0 == pos {
            proof {
                lemma_desired_contains(desired@, pos);
            }
            return true;
        }
        i = i + 1;
    }
    proof {
        lemma_desired_contains(desired@, pos);
    }
    false
}

/// Whether a position list contains a position.
fn contains_pos(list: &Vec<ChunkPos>, pos: ChunkPos) -> (r: bool)
    ensures
        r == list@.contains(pos),
{
    let mut i: usize = 0;
    while i < list.len()
        invariant
            i <= list@.len(),
            forall|j: int| 0 <= j < i ==> list@[j] != pos,
        decreases list@.len() - i,
    {
        if list[i] == pos {
            return true;
        }
        i = i + 1;
    }
    false
}


/// A leaf the streamer can map to a chunk: inside the coordinate limit, with
/// an edge size of `CHUNK_SIZE * 2^k` for a supported depth `k`.
pub open spec fn leaf_streamable(n: OctreeNode) -> bool {
    &&& -COORD_LIMIT <= n.min_x && n.min_x + n.size <= COORD_LIMIT
    &&& -COORD_LIMIT <= n.min_y && n.min_y + n.size <= COORD_LIMIT
    &&& -COORD_LIMIT <= n.min_z && n.min_z + n.size <= COORD_LIMIT
    &&& exists|k: nat| k <= MAX_LOD_DEPTH && n.size == CHUNK_SIZE as int * pow2(k)
}

/// The level-of-detail depth a leaf's edge size implies.
pub open spec fn leaf_lod_spec(n: OctreeNode) -> u8 {
    (choose|k: nat| k <= MAX_LOD_DEPTH && n.size == CHUNK_SIZE as int * pow2(k)) as u8
}

/// The chunk target a leaf maps to: the canonical chunk position of its
/// minimum corner, carrying the implied level-of-detail depth.
pub open spec fn leaf_target_spec(n: OctreeNode) -> (ChunkPos, u8) {
    (
        ChunkPos::from_world_pos_spec(n.min_x as int, n.min_y as int, n.min_z as int),
        leaf_lod_spec(n),
    )
}

/// The desired-target list of a leaf listing.
pub open spec fn leaf_targets_spec(leaves: Seq<OctreeNode>) -> Seq<(ChunkPos, u8)> {
    leaves.map_values(|n: OctreeNode| leaf_target_spec(n))
}

/// A streamable leaf's depth is the unique `k` with
/// `size == CHUNK_SIZE * 2^k`.
proof fn lemma_leaf_lod(n: OctreeNode, k: nat)
    requires
        k <= MAX_LOD_DEPTH,
        n.size == CHUNK_SIZE as int * pow2(k),
    ensures
        leaf_lod_spec(n) == k,
{
    let k2 = choose|k2: nat| k2 <= MAX_LOD_DEPTH && n.size == CHUNK_SIZE as int * pow2(k2);
    if k2 < k {
        lemma_pow2_strictly_increases(k2, k);
    } else if k < k2 {
        lemma_pow2_strictly_increases(k, k2);
    }
}

/// The level-of-detail depth of a leaf of the given edge size: leaves exactly
/// at the chunk edge yield depth 0, each doubling adds one.
fn lod_for_leaf_size(size: u32) -> (r: u8)
    requires
        exists|k: nat| k <= MAX_LOD_DEPTH && size == CHUNK_SIZE as int * pow2(k),
    ensures
        r <= MAX_LOD_DEPTH,
        size == CHUNK_SIZE as int * pow2(r as nat),
{
    proof {
        lemma2_to64();
    }
    if size == 25 {
        0
    } else if size == 50 {
        1
    } else if size == 100 {
        2
    } else if size == 200 {
        3
    } else if size == 400 {
        4
    } else if size == 800 {
        5
    } else if size == 1600 {
        6
    } else if size == 3200 {
        7
    } else if size == 6400 {
        8
    } else if size == 12800 {
        9
    } else if size == 25600 {
        10
    } else {
        proof {
            let k = choose|k: nat| k <= MAX_LOD_DEPTH && size == CHUNK_SIZE as int * pow2(k);
            assert(k == 0 || k == 1 || k == 2 || k == 3 || k == 4 || k == 5 || k == 6 || k == 7
                || k == 8 || k == 9 || k == 10);
            assert(false);
        }
        vstd::pervasive::unreached()
    }
}

/// Map each leaf to its chunk target: the canonical chunk position of the
/// leaf's minimum corner, with the level-of-detail depth its size implies.
pub fn leaf_chunk_targets(leaves: &Vec<OctreeNode>) -> (r: Vec<(ChunkPos, u8)>)
    requires
        forall|i: int| 0 <= i < leaves@.len() ==> leaf_streamable(#[trigger] leaves@[i]),
    ensures
        r@ == leaf_targets_spec(leaves@),
        forall|i: int|
            0 <= i < r@.len() ==> (#[trigger] r@[i]).0.wf() && r@[i].1 <= MAX_LOD_DEPTH
                && leaves@[i].size == CHUNK_SIZE as int * pow2(r@[i].1 as nat),
{
    let mut r: Vec<(ChunkPos, u8)> = Vec::new();
    let mut i: usize = 0;
    while i < leaves.len()
        invariant
            forall|q: int| 0 <= q < leaves@.len() ==> leaf_streamable(#[trigger] leaves@[q]),
            i <= leaves@.len(),
            r@.len() == i,
            forall|q: int| 0 <= q < i ==> #[trigger] r@[q] == leaf_target_spec(leaves@[q]),
            forall|q: int|
                0 <= q < i ==> (#[trigger] r@[q]).0.wf() && r@[q].1 <= MAX_LOD_DEPTH
                    && leaves@[q].size == CHUNK_SIZE as int * pow2(r@[q].1 as nat),
        decreases leaves@.len() - i,
    {
        let leaf = &leaves[i];
        let lod = lod_for_leaf_size(leaf.size);
        let pos = ChunkPos::from_world_pos(leaf.min_x as i32, leaf.min_y as i32, leaf.min_z as i32);
        proof {
            lemma_leaf_lod(leaves@[i as int], lod as nat);
        }
        r.push((pos, lod));
        i = i + 1;
    }
    proof {
        assert(r@ =~= leaf_targets_spec(leaves@));
    }
    r
}

/// One full streaming tick: subdivide the octree toward the observer, collect
/// its leaves, map them to desired chunk targets, and reconcile the registry
/// against that desired set. Returns the loads (position, depth, fresh
/// handle) and unloads (position, handle) issued.
pub fn update_chunks_around_player(
    manager: &mut ChunkManager,
    octree: &mut Octree,
    px: i64,
    py: i64,
    pz: i64,
    first_handle: u64,
) -> (r: (Vec<(ChunkPos, u8, u64)>, Vec<(ChunkPos, u64)>))
    requires
        old(manager).wf(),
        old(octree).wf(),
        old(octree).min_size == CHUNK_SIZE as u32,
        old(octree).max_depth <= MAX_LOD_DEPTH,
        -COORD_LIMIT <= px <= COORD_LIMIT,
        -COORD_LIMIT <= py <= COORD_LIMIT,
        -COORD_LIMIT <= pz <= COORD_LIMIT,
        first_handle + MAX_RESIDENT_CHUNKS <= u64::MAX,
    ensures
        final(octree).wf(),
        final(octree).min_size == old(octree).min_size,
        final(octree).max_depth == old(octree).max_depth,
        subdivide_rel(
            old(octree).root,
            final(octree).root,
            px as int,
            py as int,
            pz as int,
            old(octree).min_size as int,
            old(octree).max_depth as nat,
        ),
        final(manager).wf(),
        final(manager).force_loaded == old(manager).force_loaded,
        final(manager).render_distance_horizontal == old(manager).render_distance_horizontal,
        final(manager).render_distance_vertical == old(manager).render_distance_vertical,
        reconcile_post(
            old(manager)@,
            old(manager).force_loaded@,
            leaf_targets_spec(final(octree).root.spec_leaves()),
            first_handle as int,
            final(manager)@,
            r.0@,
            r.1@,
        ),
{
    octree.subdivide_near_player(px, py, pz);
    let leaves = octree.collect_leaves();
    proof {
        lemma_leaves_wf(octree.root, octree.min_size as int, octree.max_depth as nat);
        assert forall|i: int| 0 <= i < leaves@.len() implies leaf_streamable(
            #[trigger] leaves@[i],
        ) by {
            let k = choose|k: nat|
                k <= octree.max_depth as nat && leaves@[i].size == octree.min_size as int * pow2(k);
            assert(k <= MAX_LOD_DEPTH && leaves@[i].size == CHUNK_SIZE as int * pow2(k));
        }
    }
    let targets = leaf_chunk_targets(&leaves);
    manager.reconcile(&targets, first_handle)
}

/// The desired-position set of a target list is finite.
proof fn lemma_desired_finite(ds: Seq<(ChunkPos, u8)>)
    ensures
        desired_set(ds).finite(),
    decreases ds.len(),
{
    if ds.len() > 0 {
        lemma_desired_finite(ds.drop_last());
    }
}

/// The load half of a pass with capacity to spare makes resident exactly the
/// old keys united with the desired positions.
proof fn lemma_plan_loads_dom(m0: Map<ChunkPos, u64>, ds: Seq<(ChunkPos, u8)>, h0: int)
    requires
        m0.dom().finite(),
        m0.dom().union(desired_set(ds)).len() <= MAX_RESIDENT_CHUNKS,
    ensures
        spec_plan_loads(m0, ds, h0).0.dom().finite(),
        spec_plan_loads(m0, ds, h0).0.dom() =~= m0.dom().union(desired_set(ds)),
    decreases ds.len(),
{
    broadcast use vstd::set::group_set_axioms;

    lemma_desired_finite(ds);
    if ds.len() == 0 {
        assert(m0.dom().union(desired_set(ds)) =~= m0.dom());
    } else {
        let dl = ds.drop_last();
        let d = ds.last();
        lemma_desired_finite(dl);
        assert(m0.dom().union(desired_set(dl)).subset_of(m0.dom().union(desired_set(ds))));
        lemma_len_subset(
            m0.dom().union(desired_set(dl)),
            m0.dom().union(desired_set(ds)),
        );
        lemma_plan_loads_dom(m0, dl, h0);
        let prev = spec_plan_loads(m0, dl, h0);
        if !prev.0.contains_key(d.0) {
            assert(prev.0.dom().insert(d.0).subset_of(m0.dom().union(desired_set(ds))));
            lemma_len_subset(prev.0.dom().insert(d.0), m0.dom().union(desired_set(ds)));
            assert(prev.0.dom().insert(d.0).len() == prev.0.dom().len() + 1);
            assert(prev.0.dom().len() < MAX_RESIDENT_CHUNKS);
            assert(spec_plan_loads(m0, ds, h0).0.dom() =~= prev.0.dom().insert(d.0));
            assert(prev.0.dom().insert(d.0) =~= m0.dom().union(desired_set(ds)));
        } else {
            assert(spec_plan_loads(m0, ds, h0).0 == prev.0);
            assert(prev.0.dom() =~= m0.dom().union(desired_set(ds)));
        }
    }
}

/// After one reconciliation pass with capacity to spare and every
/// force-loaded position already resident, the resident key set is exactly
/// the desired position set united with the force-loaded set: what
/// [`ChunkManager::reconcile`] and [`update_chunks_around_player`] guarantee
/// through [`reconcile_post`] pins the registry's keys to precisely those
/// positions.
pub proof fn lemma_reconciliation_resident_set(
    m0: Map<ChunkPos, u64>,
    forced: Seq<ChunkPos>,
    ds: Seq<(ChunkPos, u8)>,
    h0: int,
    m_final: Map<ChunkPos, u64>,
    loads: Seq<(ChunkPos, u8, u64)>,
    unloads: Seq<(ChunkPos, u64)>,
)
    requires
        reconcile_post(m0, forced, ds, h0, m_final, loads, unloads),
        m0.dom().finite(),
        forall|i: int| 0 <= i < forced.len() ==> m0.contains_key(#[trigger] forced[i]),
        m0.dom().union(desired_set(ds)).len() <= MAX_RESIDENT_CHUNKS,
    ensures
        forall|k: ChunkPos|
            #[trigger] m_final.contains_key(k) <==> (desired_set(ds).contains(k)
                || forced.contains(k)),
{
    broadcast use vstd::set::group_set_axioms;

    lemma_plan_loads_dom(m0, ds, h0);
    let m1 = spec_plan_loads(m0, ds, h0).0;
    assert forall|k: ChunkPos| #[trigger] m_final.contains_key(k) <==> (desired_set(ds).contains(
        k,
    ) || forced.contains(k)) by {
        if forced.contains(k) {
            let i = choose|i: int| 0 <= i < forced.len() && forced[i] == k;
            assert(m0.contains_key(k));
            assert(m1.contains_key(k));
        }
        if desired_set(ds).contains(k) {
            assert(m1.contains_key(k));
        }
    }
}

} // verus!
