//! Spatial octree driving level-of-detail: a recursive 8-way subdivision of a
//! cubic region. A node either has no children (a leaf) or exactly 8 equal
//! octant children; only leaves map to chunks. Subdivision refines nodes near
//! the observer and is monotonic: it never removes children.
//!
//! Nodes are addressed by their minimum corner and edge size, which keeps all
//! octant arithmetic exact: a node's size is always `min_size * 2^budget` for
//! its remaining depth budget, so every subdividing node has an even size.

use vstd::prelude::*;

verus! {

use vstd::arithmetic::power2::{pow2, lemma_pow2_unfold, lemma_pow2_pos};
use vstd::bits::lemma_u32_shl_is_mul;
use crate::chunk::MAX_LOD_DEPTH;

/// Bound on octree coordinates, so squared distances stay inside `i64`.
pub const COORD_LIMIT: i64 = 1048576;

/// One cell of the subdivision: a cube given by its minimum corner and edge
/// size, with either no children or exactly 8 owned octant children.
pub struct OctreeNode {
    pub min_x: i64,
    pub min_y: i64,
    pub min_z: i64,
    pub size: u32,
    pub children: Option<Vec<OctreeNode>>,
}

/// Squared Euclidean distance between two integer points.
pub open spec fn dist2_spec(ax: int, ay: int, az: int, bx: int, by: int, bz: int) -> int {
    (ax - bx) * (ax - bx) + (ay - by) * (ay - by) + (az - bz) * (az - bz)
}

impl OctreeNode {
    /// Half of the node's edge size.
    pub open spec fn half(self) -> int {
        self.size as int / 2
    }

    /// X coordinate of the node's center.
    pub open spec fn center_x(self) -> int {
        self.min_x + self.half()
    }

    /// Y coordinate of the node's center.
    pub open spec fn center_y(self) -> int {
        self.min_y + self.half()
    }

    /// Z coordinate of the node's center.
    pub open spec fn center_z(self) -> int {
        self.min_z + self.half()
    }

    /// Whether the node's cube contains an integer point; cubes are half-open
    /// along each axis.
    pub open spec fn contains_point(self, x: int, y: int, z: int) -> bool {
        &&& self.min_x <= x < self.min_x + self.size
        &&& self.min_y <= y < self.min_y + self.size
        &&& self.min_z <= z < self.min_z + self.size
    }

    /// Whether the observer is near enough for this node to subdivide:
    /// distance to the center below twice the edge size (compared squared).
    pub open spec fn near_spec(self, px: int, py: int, pz: int) -> bool {
        dist2_spec(px, py, pz, self.center_x(), self.center_y(), self.center_z()) < 4 * self.size
            * self.size
    }

    /// Minimum X corner of octant `i`: octants are numbered with X in bit 2,
    /// Y in bit 1, Z in bit 0.
    pub open spec fn child_min_x(self, i: int) -> int {
        self.min_x + (i / 4) * self.half()
    }

    /// Minimum Y corner of octant `i`.
    pub open spec fn child_min_y(self, i: int) -> int {
        self.min_y + ((i / 2) % 2) * self.half()
    }

    /// Minimum Z corner of octant `i`.
    pub open spec fn child_min_z(self, i: int) -> int {
        self.min_z + (i % 2) * self.half()
    }

    /// Whether `c` sits exactly in octant `i` of this node.
    pub open spec fn placed(self, c: OctreeNode, i: int) -> bool {
        &&& c.min_x == self.child_min_x(i)
        &&& c.min_y == self.child_min_y(i)
        &&& c.min_z == self.child_min_z(i)
        &&& c.size == self.half()
    }

    /// The childless node filling octant `i`, as created by subdivision.
    pub open spec fn fresh_child(self, i: int) -> OctreeNode {
        OctreeNode {
            min_x: self.child_min_x(i) as i64,
            min_y: self.child_min_y(i) as i64,
            min_z: self.child_min_z(i) as i64,
            size: self.size / 2,
            children: None,
        }
    }

    /// Octant `i` as subdivision recurses into it: the existing child when
    /// children exist, a fresh childless octant otherwise.
    pub open spec fn child_pre(self, i: int) -> OctreeNode {
        match self.children {
            Some(cs) => cs@[i],
            None => self.fresh_child(i),
        }
    }

    /// Well-formedness of a node with `budget` subdivision levels left: its
    /// size is exactly `min_size * 2^budget`, its cube stays inside the
    /// coordinate limit, and it has either no children or exactly 8, each well
    /// formed at one budget less and placed exactly in its octant.
    pub open spec fn wf_node(self, min_size: int, budget: nat) -> bool
        decreases self,
    {
        &&& self.size == min_size * pow2(budget)
        &&& -COORD_LIMIT <= self.min_x && self.min_x + self.size <= COORD_LIMIT
        &&& -COORD_LIMIT <= self.min_y && self.min_y + self.size <= COORD_LIMIT
        &&& -COORD_LIMIT <= self.min_z && self.min_z + self.size <= COORD_LIMIT
        &&& match self.children {
            None => true,
            Some(cs) => {
                &&& budget > 0
                &&& cs@.len() == 8
                &&& forall|i: int|
                    0 <= i < 8 ==> (#[trigger] cs@[i]).wf_node(min_size, (budget - 1) as nat)
                &&& forall|i: int| 0 <= i < 8 ==> self.placed(#[trigger] cs@[i], i)
            },
        }
    }

    /// The leaves under a node, in depth-first order.
    pub open spec fn spec_leaves(self) -> Seq<OctreeNode>
        decreases self,
    {
        match self.children {
            None => seq![self],
            Some(cs) => spec_leaves_seq(cs@),
        }
    }
}

/// The leaves under a sequence of nodes, in order.
pub open spec fn spec_leaves_seq(s: Seq<OctreeNode>) -> Seq<OctreeNode>
    decreases s,
{
    if s.len() == 0 {
        Seq::empty()
    } else {
        s[0].spec_leaves() + spec_leaves_seq(s.drop_first())
    }
}

/// What one subdivision pass does to a node, relating the tree before to the
/// tree after. A node splits if and only if it has budget left, its size
/// exceeds `min_size`, and the observer is near; it then owns exactly 8
/// children, each the result of the same pass on the corresponding octant
/// (the existing child if present, a fresh one otherwise). Any other node is
/// left untouched, so subdivision never removes children.
pub open spec fn subdivide_rel(
    pre: OctreeNode,
    post: OctreeNode,
    px: int,
    py: int,
    pz: int,
    min_size: int,
    budget: nat,
) -> bool
    decreases budget,
{
    if budget == 0 || pre.size <= min_size || !pre.near_spec(px, py, pz) {
        post == pre
    } else {
        &&& post.min_x == pre.min_x
        &&& post.min_y == pre.min_y
        &&& post.min_z == pre.min_z
        &&& post.size == pre.size
        &&& match post.children {
            Some(cs) => {
                &&& cs@.len() == 8
                &&& forall|i: int|
                    0 <= i < 8 ==> subdivide_rel(
                        pre.child_pre(i),
                        #[trigger] cs@[i],
                        px,
                        py,
                        pz,
                        min_size,
                        (budget - 1) as nat,
                    )
            },
            None => false,
        }
    }
}

/// Subdivision keeps a node's own corner and size.
pub proof fn lemma_subdivide_frame(
    pre: OctreeNode,
    post: OctreeNode,
    px: int,
    py: int,
    pz: int,
    min_size: int,
    budget: nat,
)
    requires
        subdivide_rel(pre, post, px, py, pz, min_size, budget),
    ensures
        post.min_x == pre.min_x,
        post.min_y == pre.min_y,
        post.min_z == pre.min_z,
        post.size == pre.size,
{
}

/// Subdivision is monotonic: a node that had children still has them after
/// a pass, whatever the observer position.
pub proof fn lemma_subdivide_monotonic(
    pre: OctreeNode,
    post: OctreeNode,
    px: int,
    py: int,
    pz: int,
    min_size: int,
    budget: nat,
)
    requires
        subdivide_rel(pre, post, px, py, pz, min_size, budget),
    ensures
        pre.children is Some ==> post.children is Some,
{
}

/// Subdivision preserves well-formedness at the same budget.
pub proof fn lemma_subdivide_preserves_wf(
    pre: OctreeNode,
    post: OctreeNode,
    px: int,
    py: int,
    pz: int,
    min_size: int,
    budget: nat,
)
    requires
        pre.wf_node(min_size, budget),
        min_size >= 1,
        subdivide_rel(pre, post, px, py, pz, min_size, budget),
    ensures
        post.wf_node(min_size, budget),
    decreases budget,
{
    if budget == 0 || pre.size <= min_size || !pre.near_spec(px, py, pz) {
    } else {
        lemma_child_pre_wf(pre, min_size, budget);
        let cs = post.children->Some_0;
        assert forall|i: int| 0 <= i < 8 implies (#[trigger] cs@[i]).wf_node(
            min_size,
            (budget - 1) as nat,
        ) by {
            lemma_subdivide_preserves_wf(
                pre.child_pre(i),
                cs@[i],
                px,
                py,
                pz,
                min_size,
                (budget - 1) as nat,
            );
        }
        assert forall|i: int| 0 <= i < 8 implies post.placed(#[trigger] cs@[i], i) by {
            lemma_subdivide_frame(
                pre.child_pre(i),
                cs@[i],
                px,
                py,
                pz,
                min_size,
                (budget - 1) as nat,
            );
            lemma_pow2_unfold(budget);
        }
    }
}

/// Octant offset products, linearized: with the octant index split into its
/// X/Y/Z bits, each offset is either zero or the half size.
proof fn lemma_octant_offsets(i: int, h: int)
    requires
        0 <= i < 8,
    ensures
        (i / 4) * h == if i / 4 == 1 { h } else { 0 },
        ((i / 2) % 2) * h == if (i / 2) % 2 == 1 { h } else { 0 },
        (i % 2) * h == if i % 2 == 1 { h } else { 0 },
{
    if i == 0 {
    } else if i == 1 {
    } else if i == 2 {
    } else if i == 3 {
    } else if i == 4 {
    } else if i == 5 {
    } else if i == 6 {
    } else {
    }
}

/// When a well-formed node subdivides, each octant it recurses into is well
/// formed at one budget less; in particular a fresh octant is.
pub proof fn lemma_child_pre_wf(pre: OctreeNode, min_size: int, budget: nat)
    requires
        pre.wf_node(min_size, budget),
        min_size >= 1,
        budget > 0,
    ensures
        forall|i: int|
            0 <= i < 8 ==> (#[trigger] pre.child_pre(i)).wf_node(min_size, (budget - 1) as nat),
        forall|i: int| 0 <= i < 8 ==> pre.placed(#[trigger] pre.child_pre(i), i),
{
    lemma_pow2_unfold(budget);
    lemma_pow2_pos((budget - 1) as nat);
    assert(min_size * pow2(budget) == 2 * (min_size * pow2((budget - 1) as nat)))
        by (nonlinear_arith)
        requires
            pow2(budget) == 2 * pow2((budget - 1) as nat),
    ;
    assert(pre.half() == min_size * pow2((budget - 1) as nat));
    assert(min_size * pow2((budget - 1) as nat) >= 1) by (nonlinear_arith)
        requires
            min_size >= 1,
            pow2((budget - 1) as nat) >= 1,
    ;
    match pre.children {
        Some(_) => {
        },
        None => {
            assert forall|i: int| 0 <= i < 8 implies (#[trigger] pre.child_pre(i)).wf_node(
                min_size,
                (budget - 1) as nat,
            ) && pre.placed(pre.child_pre(i), i) by {
                lemma_octant_offsets(i, pre.half());
            }
        },
    }
}

/// A well-formed node never has a nonzero number of children other than 8.
pub proof fn lemma_children_none_or_eight(n: OctreeNode, min_size: int, budget: nat)
    requires
        n.wf_node(min_size, budget),
    ensures
        match n.children {
            None => true,
            Some(cs) => cs@.len() == 8,
        },
{
}

/// How many of the listed nodes' cubes contain a given point.
pub open spec fn count_containing(ls: Seq<OctreeNode>, x: int, y: int, z: int) -> nat
    decreases ls.len(),
{
    if ls.len() == 0 {
        0nat
    } else {
        (if ls[0].contains_point(x, y, z) {
            1nat
        } else {
            0nat
        }) + count_containing(ls.drop_first(), x, y, z)
    }
}

/// Containment counts add over concatenation.
pub proof fn lemma_count_concat(a: Seq<OctreeNode>, b: Seq<OctreeNode>, x: int, y: int, z: int)
    ensures
        count_containing(a + b, x, y, z) == count_containing(a, x, y, z) + count_containing(
            b,
            x,
            y,
            z,
        ),
    decreases a.len(),
{
    if a.len() == 0 {
        assert(a + b =~= b);
    } else {
        assert((a + b).drop_first() =~= a.drop_first() + b);
        lemma_count_concat(a.drop_first(), b, x, y, z);
    }
}

/// The leaves of a well-formed node partition its cube: every point of the
/// cube lies in exactly one leaf, and no point outside lies in any. A node
/// never has a nonzero number of children other than 8.
pub proof fn lemma_leaves_partition(
    n: OctreeNode,
    min_size: int,
    budget: nat,
    x: int,
    y: int,
    z: int,
)
    requires
        n.wf_node(min_size, budget),
        min_size >= 1,
    ensures
        count_containing(n.spec_leaves(), x, y, z) == if n.contains_point(x, y, z) {
            1nat
        } else {
            0nat
        },
    decreases budget, 0nat, 0nat,
{
    match n.children {
        None => {
            assert(n.spec_leaves() == seq![n]);
            assert(n.spec_leaves().drop_first() =~= Seq::<OctreeNode>::empty());
            assert(count_containing(Seq::<OctreeNode>::empty(), x, y, z) == 0);
            assert(count_containing(n.spec_leaves(), x, y, z) == (if n.contains_point(x, y, z) {
                1nat
            } else {
                0nat
            }) + count_containing(n.spec_leaves().drop_first(), x, y, z));
        },
        Some(cs) => {
            lemma_pow2_unfold(budget);
            lemma_pow2_pos((budget - 1) as nat);
            assert(min_size * pow2(budget) == 2 * (min_size * pow2((budget - 1) as nat)))
                by (nonlinear_arith)
                requires
                    pow2(budget) == 2 * pow2((budget - 1) as nat),
            ;
            assert(min_size * pow2((budget - 1) as nat) >= 1) by (nonlinear_arith)
                requires
                    min_size >= 1,
                    pow2((budget - 1) as nat) >= 1,
            ;
            let h = n.half();
            assert(forall|i: int|
                0 <= i < 8 ==> (#[trigger] cs@[i]).size == min_size * pow2((budget - 1) as nat));
            lemma_partition_children(cs@, min_size, (budget - 1) as nat, x, y, z);
            // Exactly one octant of a subdivided cube contains each point of it.
            let bx: int = if x >= n.min_x + h { 1 } else { 0 };
            let by: int = if y >= n.min_y + h { 1 } else { 0 };
            let bz: int = if z >= n.min_z + h { 1 } else { 0 };
            let k = 4 * bx + 2 * by + bz;
            assert(k / 4 == bx && (k / 2) % 2 == by && k % 2 == bz);
            if n.contains_point(x, y, z) {
                assert(cs@[k].contains_point(x, y, z)) by {
                    lemma_octant_offsets(k, h);
                }
                assert forall|i: int| 0 <= i < 8 && i != k implies !(#[trigger] cs@[i]).contains_point(
                    x,
                    y,
                    z,
                ) by {
                    lemma_octant_offsets(i, h);
                }
            } else {
                assert forall|i: int| 0 <= i < 8 implies !(#[trigger] cs@[i]).contains_point(
                    x,
                    y,
                    z,
                ) by {
                    lemma_octant_offsets(i, h);
                }
            }
            reveal_with_fuel(count_containing, 10);
        },
    }
}

/// Containment count over the leaves of several well-formed nodes equals the
/// count over the nodes themselves: within each node the leaves tile it.
proof fn lemma_partition_children(
    s: Seq<OctreeNode>,
    min_size: int,
    budget: nat,
    x: int,
    y: int,
    z: int,
)
    requires
        forall|i: int| 0 <= i < s.len() ==> (#[trigger] s[i]).wf_node(min_size, budget),
        min_size >= 1,
    ensures
        count_containing(spec_leaves_seq(s), x, y, z) == count_containing(s, x, y, z),
    decreases budget, 1nat, s.len(),
{
    if s.len() == 0 {
    } else {
        lemma_count_concat(s[0].spec_leaves(), spec_leaves_seq(s.drop_first()), x, y, z);
        lemma_leaves_partition(s[0], min_size, budget, x, y, z);
        lemma_partition_children(s.drop_first(), min_size, budget, x, y, z);
    }
}

/// Every leaf of a well-formed node is childless, lies within the coordinate
/// limit, and has size `min_size * 2^k` for some `k` within the budget.
pub proof fn lemma_leaves_wf(n: OctreeNode, min_size: int, budget: nat)
    requires
        n.wf_node(min_size, budget),
        min_size >= 1,
    ensures
        forall|i: int|
            0 <= i < n.spec_leaves().len() ==> {
                let leaf = #[trigger] n.spec_leaves()[i];
                &&& leaf.children is None
                &&& -COORD_LIMIT <= leaf.min_x && leaf.min_x + leaf.size <= COORD_LIMIT
                &&& -COORD_LIMIT <= leaf.min_y && leaf.min_y + leaf.size <= COORD_LIMIT
                &&& -COORD_LIMIT <= leaf.min_z && leaf.min_z + leaf.size <= COORD_LIMIT
                &&& exists|k: nat| k <= budget && leaf.size == min_size * pow2(k)
            },
    decreases budget, 0nat, 0nat,
{
    match n.children {
        None => {
            assert(n.spec_leaves() =~= seq![n]);
            assert(n.size == min_size * pow2(budget));
        },
        Some(cs) => {
            lemma_leaves_seq_wf(cs@, min_size, (budget - 1) as nat);
        },
    }
}

/// [`lemma_leaves_wf`] lifted to a sequence of well-formed nodes.
proof fn lemma_leaves_seq_wf(s: Seq<OctreeNode>, min_size: int, budget: nat)
    requires
        forall|i: int| 0 <= i < s.len() ==> (#[trigger] s[i]).wf_node(min_size, budget),
        min_size >= 1,
    ensures
        forall|i: int|
            0 <= i < spec_leaves_seq(s).len() ==> {
                let leaf = #[trigger] spec_leaves_seq(s)[i];
                &&& leaf.children is None
                &&& -COORD_LIMIT <= leaf.min_x && leaf.min_x + leaf.size <= COORD_LIMIT
                &&& -COORD_LIMIT <= leaf.min_y && leaf.min_y + leaf.size <= COORD_LIMIT
                &&& -COORD_LIMIT <= leaf.min_z && leaf.min_z + leaf.size <= COORD_LIMIT
                &&& exists|k: nat| k <= budget && leaf.size == min_size * pow2(k)
            },
    decreases budget, 1nat, s.len(),
{
    if s.len() == 0 {
    } else {
        lemma_leaves_wf(s[0], min_size, budget);
        lemma_leaves_seq_wf(s.drop_first(), min_size, budget);
        assert forall|i: int| 0 <= i < spec_leaves_seq(s).len() implies {
            let leaf = #[trigger] spec_leaves_seq(s)[i];
            &&& leaf.children is None
            &&& -COORD_LIMIT <= leaf.min_x && leaf.min_x + leaf.size <= COORD_LIMIT
            &&& -COORD_LIMIT <= leaf.min_y && leaf.min_y + leaf.size <= COORD_LIMIT
            &&& -COORD_LIMIT <= leaf.min_z && leaf.min_z + leaf.size <= COORD_LIMIT
            &&& exists|k: nat| k <= budget && leaf.size == min_size * pow2(k)
        } by {
            let front = s[0].spec_leaves();
            if i < front.len() {
                assert(spec_leaves_seq(s)[i] == front[i]);
            } else {
                assert(spec_leaves_seq(s)[i] == spec_leaves_seq(s.drop_first())[i - front.len()]);
            }
        }
    }
}

impl OctreeNode {
    /// A childless node with the given minimum corner and edge size.
    pub fn new(min_x: i64, min_y: i64, min_z: i64, size: u32) -> (r: OctreeNode)
        ensures
            r == (OctreeNode { min_x, min_y, min_z, size, children: None }),
    {
        OctreeNode { min_x, min_y, min_z, size, children: None }
    }

    /// The 8 fresh octant children of this node, X in bit 2, Y in bit 1,
    /// Z in bit 0 of the octant index.
    fn generate_children(&self) -> (r: Vec<OctreeNode>)
        requires
            -COORD_LIMIT <= self.min_x && self.min_x + self.size <= COORD_LIMIT,
            -COORD_LIMIT <= self.min_y && self.min_y + self.size <= COORD_LIMIT,
            -COORD_LIMIT <= self.min_z && self.min_z + self.size <= COORD_LIMIT,
        ensures
            r@.len() == 8,
            forall|i: int| 0 <= i < 8 ==> r@[i] == self.fresh_child(i),
    {
        let half: u32 = self.size / 2;
        let hx: i64 = self.min_x + half as i64;
        let hy: i64 = self.min_y + half as i64;
        let hz: i64 = self.min_z + half as i64;
        let mut r: Vec<OctreeNode> = Vec::new();
        r.push(OctreeNode::new(self.min_x, self.min_y, self.min_z, half));
        r.push(OctreeNode::new(self.min_x, self.min_y, hz, half));
        r.push(OctreeNode::new(self.min_x, hy, self.min_z, half));
        r.push(OctreeNode::new(self.min_x, hy, hz, half));
        r.push(OctreeNode::new(hx, self.min_y, self.min_z, half));
        r.push(OctreeNode::new(hx, self.min_y, hz, half));
        r.push(OctreeNode::new(hx, hy, self.min_z, half));
        r.push(OctreeNode::new(hx, hy, hz, half));
        proof {
            assert(r@[0] == self.fresh_child(0));
            assert(r@[1] == self.fresh_child(1));
            assert(r@[2] == self.fresh_child(2));
            assert(r@[3] == self.fresh_child(3));
            assert(r@[4] == self.fresh_child(4));
            assert(r@[5] == self.fresh_child(5));
            assert(r@[6] == self.fresh_child(6));
            assert(r@[7] == self.fresh_child(7));
            assert forall|i: int| 0 <= i < 8 implies r@[i] == self.fresh_child(i) by {
                assert(i == 0 || i == 1 || i == 2 || i == 3 || i == 4 || i == 5 || i == 6 || i
                    == 7);
            }
        }
        r
    }

    /// One subdivision pass over this node, as [`subdivide_rel`] describes:
    /// split while budget remains, the size exceeds `min_size`, and the
    /// observer is within twice the node size of the center, then recurse
    /// into all 8 octants.
    fn subdivide_if_needed(self, px: i64, py: i64, pz: i64, min_size: u32, budget: u8) -> (r:
        OctreeNode)
        requires
            self.wf_node(min_size as int, budget as nat),
            min_size >= 1,
            -COORD_LIMIT <= px <= COORD_LIMIT,
            -COORD_LIMIT <= py <= COORD_LIMIT,
            -COORD_LIMIT <= pz <= COORD_LIMIT,
        ensures
            subdivide_rel(self, r, px as int, py as int, pz as int, min_size as int, budget as nat),
        decreases budget,
    {
        if budget == 0 || self.size <= min_size {
            return self;
        }
        let half: u32 = self.size / 2;
        let cx: i64 = self.min_x + half as i64;
        let cy: i64 = self.min_y + half as i64;
        let cz: i64 = self.min_z + half as i64;
        let dx: i64 = px - cx;
        let dy: i64 = py - cy;
        let dz: i64 = pz - cz;
        let s: i64 = self.size as i64;
        proof {
            assert(dx * dx <= 0x40000000000 && dy * dy <= 0x40000000000 && dz * dz
                <= 0x40000000000 && 0 <= dx * dx && 0 <= dy * dy && 0 <= dz * dz && 4 * s * s
                <= 0x100000000000) by (nonlinear_arith)
                requires
                    -0x200000 <= dx <= 0x200000,
                    -0x200000 <= dy <= 0x200000,
                    -0x200000 <= dz <= 0x200000,
                    0 <= s <= 0x200000,
            ;
        }
        let dist2: i64 = dx * dx + dy * dy + dz * dz;
        if dist2 < 4 * s * s {
            proof {
                lemma_child_pre_wf(self, min_size as int, budget as nat);
            }
            let OctreeNode { min_x, min_y, min_z, size, children } = self;
            let mut pending: Vec<OctreeNode> = match children {
                Some(cs) => cs,
                None => OctreeNode {
                    min_x,
                    min_y,
                    min_z,
                    size,
                    children: None,
                }.generate_children(),
            };
            let ghost orig = pending@;
            proof {
                assert(forall|i: int| 0 <= i < 8 ==> orig[i] == self.child_pre(i));
            }
            let mut done: Vec<OctreeNode> = Vec::new();
            let mut k: usize = 0;
            while k < 8
                invariant
                    0 <= k <= 8,
                    orig.len() == 8,
                    pending@ =~= orig.subrange(k as int, 8),
                    done@.len() == k,
                    min_size >= 1,
                    budget >= 1,
                    -COORD_LIMIT <= px <= COORD_LIMIT,
                    -COORD_LIMIT <= py <= COORD_LIMIT,
                    -COORD_LIMIT <= pz <= COORD_LIMIT,
                    forall|i: int|
                        0 <= i < 8 ==> (#[trigger] orig[i]).wf_node(
                            min_size as int,
                            (budget - 1) as nat,
                        ),
                    forall|i: int|
                        0 <= i < k ==> subdivide_rel(
                            orig[i],
                            #[trigger] done@[i],
                            px as int,
                            py as int,
                            pz as int,
                            min_size as int,
                            (budget - 1) as nat,
                        ),
                decreases 8 - k,
            {
                let c = pending.remove(0);
                proof {
                    assert(c == orig[k as int]);
                    assert(pending@ =~= orig.subrange(k + 1, 8));
                }
                let c2 = c.subdivide_if_needed(px, py, pz, min_size, budget - 1);
                done.push(c2);
                k = k + 1;
            }
            let r = OctreeNode { min_x, min_y, min_z, size, children: Some(done) };
            proof {
                assert(forall|i: int|
                    0 <= i < 8 ==> subdivide_rel(
                        self.child_pre(i),
                        #[trigger] r.children->Some_0@[i],
                        px as int,
                        py as int,
                        pz as int,
                        min_size as int,
                        (budget - 1) as nat,
                    ));
            }
            r
        } else {
            self
        }
    }

    /// Append the leaves under this node to `out`, depth first.
    fn collect_leaves_into(&self, out: &mut Vec<OctreeNode>, Ghost(min_size): Ghost<int>, Ghost(
        budget,
    ): Ghost<nat>)
        requires
            self.wf_node(min_size, budget),
        ensures
            final(out)@ == old(out)@ + self.spec_leaves(),
        decreases budget,
    {
        match &self.children {
            None => {
                out.push(
                    OctreeNode {
                        min_x: self.min_x,
                        min_y: self.min_y,
                        min_z: self.min_z,
                        size: self.size,
                        children: None,
                    },
                );
                proof {
                    assert(old(out)@.push(*self) =~= old(out)@ + seq![*self]);
                }
            },
            Some(cs) => {
                let ghost out0 = out@;
                let mut i: usize = 0;
                while i < cs.len()
                    invariant
                        i <= cs@.len(),
                        cs@.len() == 8,
                        budget > 0,
                        forall|j: int|
                            0 <= j < 8 ==> (#[trigger] cs@[j]).wf_node(
                                min_size,
                                (budget - 1) as nat,
                            ),
                        out@ == out0 + spec_leaves_prefix(cs@, i as int),
                    decreases cs@.len() - i,
                {
                    cs[i].collect_leaves_into(out, Ghost(min_size), Ghost((budget - 1) as nat));
                    proof {
                        lemma_leaves_prefix_step(cs@, i as int);
                        assert(out@ =~= out0 + spec_leaves_prefix(cs@, i + 1));
                    }
                    i = i + 1;
                }
                proof {
                    lemma_leaves_prefix_full(cs@);
                }
            },
        }
    }
}

/// The leaves under the first `k` nodes of a sequence.
pub open spec fn spec_leaves_prefix(s: Seq<OctreeNode>, k: int) -> Seq<OctreeNode>
    decreases k,
{
    if k <= 0 {
        Seq::empty()
    } else {
        spec_leaves_prefix(s, k - 1) + s[k - 1].spec_leaves()
    }
}

/// Extending a leaf prefix by one node appends that node's leaves.
proof fn lemma_leaves_prefix_step(s: Seq<OctreeNode>, k: int)
    requires
        0 <= k < s.len(),
    ensures
        spec_leaves_prefix(s, k + 1) == spec_leaves_prefix(s, k) + s[k].spec_leaves(),
{
}

/// The full leaf prefix of a sequence is its leaf listing.
proof fn lemma_leaves_prefix_full(s: Seq<OctreeNode>)
    ensures
        spec_leaves_prefix(s, s.len() as int) == spec_leaves_seq(s),
    decreases s.len(),
{
    if s.len() == 0 {
    } else {
        lemma_leaves_prefix_full(s.drop_first());
        lemma_leaves_prefix_shift(s, s.len() as int);
        assert(spec_leaves_seq(s) == s[0].spec_leaves() + spec_leaves_seq(s.drop_first()));
    }
}

/// A leaf prefix of length `k` splits as the first node's leaves followed by
/// the prefix of length `k - 1` of the remaining nodes.
proof fn lemma_leaves_prefix_shift(s: Seq<OctreeNode>, k: int)
    requires
        1 <= k <= s.len(),
    ensures
        spec_leaves_prefix(s, k) == s[0].spec_leaves() + spec_leaves_prefix(s.drop_first(), k - 1),
    decreases k,
{
    if k == 1 {
        assert(spec_leaves_prefix(s, 0) =~= Seq::<OctreeNode>::empty());
        assert(spec_leaves_prefix(s.drop_first(), 0) =~= Seq::<OctreeNode>::empty());
        assert(spec_leaves_prefix(s, 1) == spec_leaves_prefix(s, 0) + s[0].spec_leaves());
        assert(spec_leaves_prefix(s, 1) =~= s[0].spec_leaves() + spec_leaves_prefix(
            s.drop_first(),
            0,
        ));
    } else {
        lemma_leaves_prefix_shift(s, k - 1);
        assert(s.drop_first()[k - 2] == s[k - 1]);
        assert(s[0].spec_leaves() + spec_leaves_prefix(s.drop_first(), k - 1) =~= (
        s[0].spec_leaves() + spec_leaves_prefix(s.drop_first(), k - 2)) + s[k
            - 1].spec_leaves());
    }
}

/// The whole level-of-detail driver: a root node sized to cover the world,
/// the finest allowed node edge, and the depth budget.
pub struct Octree {
    pub root: OctreeNode,
    pub min_size: u32,
    pub max_depth: u8,
}

impl Octree {
    /// An octree is well formed when its root is, with the full depth budget.
    pub open spec fn wf(self) -> bool {
        &&& self.min_size >= 1
        &&& self.root.wf_node(self.min_size as int, self.max_depth as nat)
    }

    /// A fresh, undivided octree centered on the given point. Its root edge is
    /// `min_size * 2^max_depth`, so octant subdivision stays exact all the way
    /// down to `min_size`.
    pub fn new(center_x: i64, center_y: i64, center_z: i64, min_size: u32, max_depth: u8) -> (r:
        Octree)
        requires
            min_size >= 1,
            max_depth <= MAX_LOD_DEPTH,
            min_size as int * pow2(max_depth as nat) <= 0x40000,
            -0x40000 <= center_x <= 0x40000,
            -0x40000 <= center_y <= 0x40000,
            -0x40000 <= center_z <= 0x40000,
        ensures
            r.wf(),
            r.min_size == min_size,
            r.max_depth == max_depth,
            r.root.children is None,
            r.root.size == min_size as int * pow2(max_depth as nat),
            r.root.min_x == center_x - r.root.half(),
            r.root.min_y == center_y - r.root.half(),
            r.root.min_z == center_z - r.root.half(),
    {
        proof {
            lemma_u32_shl_is_mul(min_size, max_depth as u32);
        }
        let size: u32 = min_size << max_depth;
        let half: u32 = size / 2;
        let root = OctreeNode::new(
            center_x - half as i64,
            center_y - half as i64,
            center_z - half as i64,
            size,
        );
        Octree { root, min_size, max_depth }
    }

    /// Recursively subdivide the nodes near the observer, as
    /// [`subdivide_rel`] describes. Never removes children.
    pub fn subdivide_near_player(&mut self, px: i64, py: i64, pz: i64)
        requires
            old(self).wf(),
            -COORD_LIMIT <= px <= COORD_LIMIT,
            -COORD_LIMIT <= py <= COORD_LIMIT,
            -COORD_LIMIT <= pz <= COORD_LIMIT,
        ensures
            final(self).wf(),
            final(self).min_size == old(self).min_size,
            final(self).max_depth == old(self).max_depth,
            subdivide_rel(
                old(self).root,
                final(self).root,
                px as int,
                py as int,
                pz as int,
                old(self).min_size as int,
                old(self).max_depth as nat,
            ),
    {
        let mut root = OctreeNode::new(0, 0, 0, 0);
        core::mem::swap(&mut root, &mut self.root);
        let new_root = root.subdivide_if_needed(px, py, pz, self.min_size, self.max_depth);
        proof {
            lemma_subdivide_preserves_wf(
                old(self).root,
                new_root,
                px as int,
                py as int,
                pz as int,
                self.min_size as int,
                self.max_depth as nat,
            );
        }
        self.root = new_root;
    }

    /// All current leaf nodes, depth first: the complete set of wanted
    /// spatial cells at the granularity the subdivision has settled on.
    pub fn collect_leaves(&self) -> (r: Vec<OctreeNode>)
        requires
            self.wf(),
        ensures
            r@ == self.root.spec_leaves(),
    {
        let mut result: Vec<OctreeNode> = Vec::new();
        self.root.collect_leaves_into(
            &mut result,
            Ghost(self.min_size as int),
            Ghost(self.max_depth as nat),
        );
        proof {
            assert(Seq::<OctreeNode>::empty() + self.root.spec_leaves() =~= self.root.spec_leaves());
        }
        result
    }
}

} // verus!
