//! A hierarchy of bounding boxes over the surfaces of a world.
//!
//! The hierarchy is a binary tree in a table. A leaf names one surface; an
//! inner node names its two children and holds, for each child, a box around
//! everything below that child. How the surfaces are divided among the
//! children is the builder's choice; a table is taken as a hierarchy once it
//! is seen to be a tree over all surfaces with boxes that enclose what they
//! should.
//!
//! A walk through the hierarchy collects the surfaces that a ray may hit. It
//! descends into a child only where the ray crosses the child's box. Whether
//! it does is rounding arithmetic, so the test is the caller's.

use vstd::prelude::*;
use vstd::seq_lib::*;
use vstd::multiset::*;
use crate::aabb::{lemma_encloses_transitive, Aabb};
use crate::types::Ray;

verus! {

/// An entry of the table.
#[derive(Clone, Copy, Debug)]
pub enum BvhNode {
    /// One surface, by its position in the world.
    Leaf { shape_index: usize },
    /// Two subtrees, by their positions in the table, each with the box
    /// around everything in it.
    Node { child_l_index: usize, child_l_aabb: Aabb, child_r_index: usize, child_r_aabb: Aabb },
}

/// A table of nodes that is a hierarchy over the given boxes, one box per
/// surface.
#[derive(Debug)]
pub struct Hierarchy {
    nodes: Vec<BvhNode>,
    boxes: Vec<Aabb>,
}

/// `outer` is a box around everything below the node `child`: around its
/// surface if it is a leaf, around both its boxes if it is an inner node.
pub open spec fn covers(nodes: Seq<BvhNode>, boxes: Seq<Aabb>, outer: Aabb, child: int) -> bool {
    match nodes[child] {
        BvhNode::Leaf { shape_index } => shape_index < boxes.len() && outer.encloses(
            boxes[shape_index as int],
        ),
        BvhNode::Node { child_l_aabb, child_r_aabb, .. } => outer.encloses(child_l_aabb)
            && outer.encloses(child_r_aabb),
    }
}

/// The node `k` is in order: a leaf names a surface; the children of an
/// inner node come later in the table than the node itself, and its boxes
/// cover them.
pub open spec fn node_in_order(nodes: Seq<BvhNode>, boxes: Seq<Aabb>, k: int) -> bool {
    match nodes[k] {
        BvhNode::Leaf { shape_index } => shape_index < boxes.len(),
        BvhNode::Node { child_l_index, child_l_aabb, child_r_index, child_r_aabb } => {
            &&& k < child_l_index < nodes.len()
            &&& k < child_r_index < nodes.len()
            &&& covers(nodes, boxes, child_l_aabb, child_l_index as int)
            &&& covers(nodes, boxes, child_r_aabb, child_r_index as int)
        },
    }
}

/// Every node of the table is in order.
pub open spec fn in_order(nodes: Seq<BvhNode>, boxes: Seq<Aabb>) -> bool {
    forall|k: int| 0 <= k < nodes.len() ==> node_in_order(nodes, boxes, k)
}

/// The number of leaves at or below the node `k` that name the surface
/// `shape`.
pub open spec fn named(nodes: Seq<BvhNode>, k: int, shape: int) -> nat
    decreases nodes.len() - k,
{
    if 0 <= k < nodes.len() {
        match nodes[k] {
            BvhNode::Leaf { shape_index } => if shape_index == shape {
                1
            } else {
                0
            },
            BvhNode::Node { child_l_index, child_r_index, .. } => {
                let left = if k < child_l_index < nodes.len() {
                    named(nodes, child_l_index as int, shape)
                } else {
                    0
                };
                let right = if k < child_r_index < nodes.len() {
                    named(nodes, child_r_index as int, shape)
                } else {
                    0
                };
                left + right
            },
        }
    } else {
        0
    }
}

/// The surface `shape` is named by a leaf at or below the node `k`.
pub open spec fn holds(nodes: Seq<BvhNode>, k: int, shape: int) -> bool {
    named(nodes, k, shape) > 0
}

/// Every one of `count` surfaces is named by exactly one leaf of the tree
/// that starts at the first entry of the table.
pub open spec fn complete(nodes: Seq<BvhNode>, count: nat) -> bool {
    forall|shape: int| 0 <= shape < count ==> named(nodes, 0, shape) == 1
}

/// The table is a hierarchy over the boxes.
pub open spec fn is_hierarchy(nodes: Seq<BvhNode>, boxes: Seq<Aabb>) -> bool {
    in_order(nodes, boxes) && complete(nodes, boxes.len())
}

/// No surface is marked and named below the node `k`, and none is named
/// there twice.
pub open spec fn fresh(nodes: Seq<BvhNode>, k: int, seen: Seq<bool>) -> bool {
    forall|shape: int|
        0 <= shape < seen.len() ==> {
            &&& #[trigger] named(nodes, k, shape) <= 1
            &&& !(seen[shape] && named(nodes, k, shape) == 1)
        }
}

/// The surfaces that a walk from the node `k` collects, in the order in
/// which it meets them: the surface of a leaf; for an inner node, what is
/// collected below the left child if the ray crosses the left box, then
/// what is collected below the right child if it crosses the right box.
pub open spec fn walk(nodes: Seq<BvhNode>, k: int, crossed: spec_fn(Aabb) -> bool) -> Seq<usize>
    decreases nodes.len() - k,
{
    if 0 <= k < nodes.len() {
        match nodes[k] {
            BvhNode::Leaf { shape_index } => seq![shape_index],
            BvhNode::Node { child_l_index, child_l_aabb, child_r_index, child_r_aabb } => {
                let left = if k < child_l_index < nodes.len() && crossed(child_l_aabb) {
                    walk(nodes, child_l_index as int, crossed)
                } else {
                    Seq::empty()
                };
                let right = if k < child_r_index < nodes.len() && crossed(child_r_aabb) {
                    walk(nodes, child_r_index as int, crossed)
                } else {
                    Seq::empty()
                };
                left + right
            },
        }
    } else {
        Seq::empty()
    }
}

/// The test gives one answer for each ray and box.
pub open spec fn is_function<F: Fn(&Ray, &Aabb) -> bool>(crosses: F) -> bool {
    forall|ray: Ray, b: Aabb, first: bool, second: bool|
        call_ensures(crosses, (&ray, &b), first) && call_ensures(crosses, (&ray, &b), second)
            ==> first == second
}

/// The answers of the test for a ray, box by box.
pub open spec fn crossed_by<F: Fn(&Ray, &Aabb) -> bool>(crosses: F, ray: Ray) -> spec_fn(
    Aabb,
) -> bool {
    |b: Aabb| choose|answer: bool| call_ensures(crosses, (&ray, &b), answer)
}

impl Hierarchy {
    #[verifier::type_invariant]
    closed spec fn inv(self) -> bool {
        is_hierarchy(self.nodes@, self.boxes@)
    }

    /// The table.
    pub closed spec fn table(self) -> Seq<BvhNode> {
        self.nodes@
    }

    /// The boxes of the surfaces.
    pub closed spec fn shapes(self) -> Seq<Aabb> {
        self.boxes@
    }

    /// The table as a hierarchy over the boxes, or `None` unless it is one:
    /// every node in order, and every surface named by exactly one leaf of
    /// the tree.
    pub fn new(nodes: Vec<BvhNode>, boxes: Vec<Aabb>) -> (h: Option<Hierarchy>)
        ensures
            h is Some <==> is_hierarchy(nodes@, boxes@),
            h is Some ==> h->0.table() == nodes@ && h->0.shapes() == boxes@,
    {
        if !check_order(&nodes, &boxes) {
            return None;
        }
        if nodes.len() == 0 {
            if boxes.len() == 0 {
                return Some(Hierarchy { nodes, boxes });
            }
            assert(named(nodes@, 0, 0) == 0);
            return None;
        }
        let mut seen: Vec<bool> = Vec::new();
        let mut n: usize = 0;
        while n < boxes.len()
            invariant
                n <= boxes@.len(),
                seen@.len() == n,
                forall|i: int| 0 <= i < n ==> !#[trigger] seen@[i],
            decreases boxes@.len() - n,
        {
            seen.push(false);
            n += 1;
        }
        let ghost unmarked = seen@;
        if !mark(&nodes, &boxes, 0, &mut seen) {
            proof {
                let shape = lemma_stale(nodes@, 0, unmarked);
                assert(named(nodes@, 0, shape) != 1);
            }
            return None;
        }
        let mut i: usize = 0;
        while i < seen.len()
            invariant
                i <= seen@.len(),
                seen@.len() == boxes@.len(),
                forall|shape: int|
                    0 <= shape < seen@.len() ==> #[trigger] seen@[shape] == (named(
                        nodes@,
                        0,
                        shape,
                    ) == 1),
                forall|shape: int| 0 <= shape < i ==> named(nodes@, 0, shape) == 1,
            decreases seen@.len() - i,
        {
            if !seen[i] {
                assert(named(nodes@, 0, i as int) != 1);
                return None;
            }
            i += 1;
        }
        Some(Hierarchy { nodes, boxes })
    }

    pub fn nodes(&self) -> (nodes: &Vec<BvhNode>)
        ensures
            nodes@ == self.table(),
            is_hierarchy(self.table(), self.shapes()),
    {
        proof {
            use_type_invariant(self);
        }
        &self.nodes
    }

    pub fn boxes(&self) -> (boxes: &Vec<Aabb>)
        ensures
            boxes@ == self.shapes(),
            is_hierarchy(self.table(), self.shapes()),
    {
        proof {
            use_type_invariant(self);
        }
        &self.boxes
    }

    /// The surfaces that a ray may hit: those that a walk from the root
    /// collects when it descends where `crosses` says that the ray crosses
    /// the box. An empty table gives none.
    pub fn traverse<F: Fn(&Ray, &Aabb) -> bool>(&self, ray: &Ray, crosses: &F) -> (found: Vec<
        usize,
    >)
        requires
            forall|b: Aabb| call_requires(*crosses, (ray, &b)),
            is_function(*crosses),
        ensures
            found@ == walk(self.table(), 0, crossed_by(*crosses, *ray)),
            forall|i: int| 0 <= i < found@.len() ==> #[trigger] found@[i] < self.shapes().len(),
            found@.no_duplicates(),
    {
        let mut found: Vec<usize> = Vec::new();
        if self.nodes.len() > 0 {
            self.traverse_recursive(0, ray, crosses, &mut found);
        }
        proof {
            use_type_invariant(self);
            lemma_walk_names_surfaces(self.nodes@, self.boxes@, 0, crossed_by(*crosses, *ray));
            lemma_walk_is_duplicate_free(self.nodes@, self.boxes@, crossed_by(*crosses, *ray));
        }
        found
    }

    fn traverse_recursive<F: Fn(&Ray, &Aabb) -> bool>(
        &self,
        node_index: usize,
        ray: &Ray,
        crosses: &F,
        indices: &mut Vec<usize>,
    )
        requires
            node_index < self.table().len(),
            forall|b: Aabb| call_requires(*crosses, (ray, &b)),
            is_function(*crosses),
        ensures
            final(indices)@ == old(indices)@ + walk(
                self.table(),
                node_index as int,
                crossed_by(*crosses, *ray),
            ),
        decreases self.table().len() - node_index,
    {
        proof {
            use_type_invariant(self);
            assert(node_in_order(self.nodes@, self.boxes@, node_index as int));
        }
        match self.nodes[node_index] {
            BvhNode::Node { child_l_index, child_l_aabb, child_r_index, child_r_aabb } => {
                let ghost start = indices@;
                if crosses(ray, &child_l_aabb) {
                    self.traverse_recursive(child_l_index, ray, crosses, indices);
                }
                let ghost middle = indices@;
                if crosses(ray, &child_r_aabb) {
                    self.traverse_recursive(child_r_index, ray, crosses, indices);
                }
                proof {
                    let crossed = crossed_by(*crosses, *ray);
                    let left = if node_index < child_l_index < self.nodes@.len() && crossed(child_l_aabb) {
                        walk(self.nodes@, child_l_index as int, crossed)
                    } else {
                        Seq::empty()
                    };
                    let right = if node_index < child_r_index < self.nodes@.len() && crossed(child_r_aabb) {
                        walk(self.nodes@, child_r_index as int, crossed)
                    } else {
                        Seq::empty()
                    };
                    assert(middle =~= start + left);
                    assert(indices@ =~= middle + right);
                    assert(indices@ =~= start + (left + right));
                }
            },
            BvhNode::Leaf { shape_index } => {
                indices.push(shape_index);
                assert(indices@ =~= old(indices)@ + seq![shape_index]);
            },
        }
    }
}

/// Whether `outer` covers the node `child`.
fn check_cover(nodes: &Vec<BvhNode>, boxes: &Vec<Aabb>, outer: &Aabb, child: usize) -> (r: bool)
    requires
        child < nodes@.len(),
    ensures
        r == covers(nodes@, boxes@, *outer, child as int),
{
    match nodes[child] {
        BvhNode::Leaf { shape_index } => shape_index < boxes.len() && outer.surrounds(
            &boxes[shape_index],
        ),
        BvhNode::Node { child_l_index, child_l_aabb, child_r_index, child_r_aabb } => {
            outer.surrounds(&child_l_aabb) && outer.surrounds(&child_r_aabb)
        },
    }
}

/// Whether every node of the table is in order.
fn check_order(nodes: &Vec<BvhNode>, boxes: &Vec<Aabb>) -> (r: bool)
    ensures
        r == in_order(nodes@, boxes@),
{
    let mut k: usize = 0;
    while k < nodes.len()
        invariant
            k <= nodes@.len(),
            forall|j: int| 0 <= j < k ==> node_in_order(nodes@, boxes@, j),
        decreases nodes@.len() - k,
    {
        let ok: bool = match nodes[k] {
            BvhNode::Leaf { shape_index } => shape_index < boxes.len(),
            BvhNode::Node { child_l_index, child_l_aabb, child_r_index, child_r_aabb } => {
                k < child_l_index && child_l_index < nodes.len() && k < child_r_index
                    && child_r_index < nodes.len() && check_cover(
                    nodes,
                    boxes,
                    &child_l_aabb,
                    child_l_index,
                ) && check_cover(nodes, boxes, &child_r_aabb, child_r_index)
            },
        };
        if !ok {
            assert(!node_in_order(nodes@, boxes@, k as int));
            return false;
        }
        k += 1;
    }
    true
}

/// A surface that is marked and named below the node `k`, or named there
/// twice, where there is one.
proof fn lemma_stale(nodes: Seq<BvhNode>, k: int, seen: Seq<bool>) -> (shape: int)
    requires
        !fresh(nodes, k, seen),
    ensures
        0 <= shape < seen.len(),
        named(nodes, k, shape) > 1 || (seen[shape] && named(nodes, k, shape) == 1),
{
    choose|shape: int|
        0 <= shape < seen.len() && !({
            &&& #[trigger] named(nodes, k, shape) <= 1
            &&& !(seen[shape] && named(nodes, k, shape) == 1)
        })
}

/// Marks the surfaces that leaves at or below the node `k` name. Stops and
/// says no at a surface that is marked already.
fn mark(nodes: &Vec<BvhNode>, boxes: &Vec<Aabb>, k: usize, seen: &mut Vec<bool>) -> (ok: bool)
    requires
        k < nodes@.len(),
        in_order(nodes@, boxes@),
        old(seen)@.len() == boxes@.len(),
    ensures
        final(seen)@.len() == old(seen)@.len(),
        ok == fresh(nodes@, k as int, old(seen)@),
        ok ==> forall|shape: int|
            0 <= shape < final(seen)@.len() ==> #[trigger] final(seen)@[shape] == (old(
                seen,
            )@[shape] || named(nodes@, k as int, shape) == 1),
    decreases nodes@.len() - k,
{
    assert(node_in_order(nodes@, boxes@, k as int));
    match nodes[k] {
        BvhNode::Leaf { shape_index } => {
            if seen[shape_index] {
                assert(named(nodes@, k as int, shape_index as int) == 1);
                return false;
            }
            seen.set(shape_index, true);
            true
        },
        BvhNode::Node { child_l_index, child_l_aabb, child_r_index, child_r_aabb } => {
            if !mark(nodes, boxes, child_l_index, seen) {
                proof {
                    let shape = lemma_stale(nodes@, child_l_index as int, old(seen)@);
                    assert(named(nodes@, k as int, shape) >= named(
                        nodes@,
                        child_l_index as int,
                        shape,
                    ));
                }
                return false;
            }
            let ghost middle = seen@;
            if !mark(nodes, boxes, child_r_index, seen) {
                proof {
                    let shape = lemma_stale(nodes@, child_r_index as int, middle);
                    assert(named(nodes@, k as int, shape) == named(
                        nodes@,
                        child_l_index as int,
                        shape,
                    ) + named(nodes@, child_r_index as int, shape));
                    assert(named(nodes@, child_l_index as int, shape) <= 1);
                }
                return false;
            }
            proof {
                assert forall|shape: int| 0 <= shape < old(seen)@.len() implies {
                    &&& #[trigger] named(nodes@, k as int, shape) <= 1
                    &&& !(old(seen)@[shape] && named(nodes@, k as int, shape) == 1)
                    &&& seen@[shape] == (old(seen)@[shape] || named(nodes@, k as int, shape) == 1)
                } by {
                    assert(named(nodes@, k as int, shape) == named(
                        nodes@,
                        child_l_index as int,
                        shape,
                    ) + named(nodes@, child_r_index as int, shape));
                    assert(named(nodes@, child_l_index as int, shape) <= 1);
                    assert(named(nodes@, child_r_index as int, shape) <= 1);
                }
            }
            true
        },
    }
}

/// A box that covers a node is a box around every surface below the node.
pub proof fn lemma_cover_encloses(
    nodes: Seq<BvhNode>,
    boxes: Seq<Aabb>,
    outer: Aabb,
    child: int,
    shape: int,
)
    requires
        in_order(nodes, boxes),
        0 <= child < nodes.len(),
        covers(nodes, boxes, outer, child),
        holds(nodes, child, shape),
    ensures
        0 <= shape < boxes.len(),
        outer.encloses(boxes[shape]),
    decreases nodes.len() - child,
{
    assert(node_in_order(nodes, boxes, child));
    match nodes[child] {
        BvhNode::Leaf { shape_index } => {},
        BvhNode::Node { child_l_index, child_l_aabb, child_r_index, child_r_aabb } => {
            if holds(nodes, child_l_index as int, shape) {
                lemma_cover_encloses(nodes, boxes, child_l_aabb, child_l_index as int, shape);
                lemma_encloses_transitive(outer, child_l_aabb, boxes[shape]);
            } else {
                lemma_cover_encloses(nodes, boxes, child_r_aabb, child_r_index as int, shape);
                lemma_encloses_transitive(outer, child_r_aabb, boxes[shape]);
            }
        },
    }
}

/// A walk misses no surface that the ray may hit: if the ray crosses every
/// box around a surface, the walk from any node above the surface's leaf
/// collects the surface.
pub proof fn lemma_walk_finds(
    nodes: Seq<BvhNode>,
    boxes: Seq<Aabb>,
    k: int,
    crossed: spec_fn(Aabb) -> bool,
    shape: int,
)
    requires
        in_order(nodes, boxes),
        holds(nodes, k, shape),
        forall|b: Aabb| 0 <= shape < boxes.len() && b.encloses(boxes[shape]) ==> #[trigger] crossed(b),
    ensures
        0 <= shape < boxes.len(),
        walk(nodes, k, crossed).contains(shape as usize),
    decreases nodes.len() - k,
{
    assert(node_in_order(nodes, boxes, k));
    match nodes[k] {
        BvhNode::Leaf { shape_index } => {
            assert(walk(nodes, k, crossed)[0] == shape_index);
        },
        BvhNode::Node { child_l_index, child_l_aabb, child_r_index, child_r_aabb } => {
            let left = if crossed(child_l_aabb) {
                walk(nodes, child_l_index as int, crossed)
            } else {
                Seq::empty()
            };
            let right = if crossed(child_r_aabb) {
                walk(nodes, child_r_index as int, crossed)
            } else {
                Seq::empty()
            };
            let all = walk(nodes, k, crossed);
            assert(all == left + right);
            if holds(nodes, child_l_index as int, shape) {
                lemma_cover_encloses(nodes, boxes, child_l_aabb, child_l_index as int, shape);
                lemma_walk_finds(nodes, boxes, child_l_index as int, crossed, shape);
                let i = choose|i: int| 0 <= i < left.len() && left[i] == shape as usize;
                assert(all[i] == shape as usize);
            } else {
                lemma_cover_encloses(nodes, boxes, child_r_aabb, child_r_index as int, shape);
                lemma_walk_finds(nodes, boxes, child_r_index as int, crossed, shape);
                let i = choose|i: int| 0 <= i < right.len() && right[i] == shape as usize;
                assert(all[left.len() + i] == shape as usize);
            }
        },
    }
}

/// A walk meets a surface at most as often as leaves below its starting
/// node name the surface.
pub proof fn lemma_walk_counts(
    nodes: Seq<BvhNode>,
    boxes: Seq<Aabb>,
    k: int,
    crossed: spec_fn(Aabb) -> bool,
    shape: usize,
)
    requires
        in_order(nodes, boxes),
    ensures
        walk(nodes, k, crossed).to_multiset().count(shape) <= named(nodes, k, shape as int),
    decreases nodes.len() - k,
{
    broadcast use group_multiset_axioms;
    broadcast use group_to_multiset_ensures;

    if 0 <= k < nodes.len() {
        assert(node_in_order(nodes, boxes, k));
        match nodes[k] {
            BvhNode::Leaf { shape_index } => {
                let one = seq![shape_index];
                assert(one =~= Seq::<usize>::empty().push(shape_index));
                assert(Seq::<usize>::empty().to_multiset() =~= Multiset::empty());
                assert(one.to_multiset() =~= Multiset::<usize>::empty().insert(shape_index));
            },
            BvhNode::Node { child_l_index, child_l_aabb, child_r_index, child_r_aabb } => {
                lemma_walk_counts(nodes, boxes, child_l_index as int, crossed, shape);
                lemma_walk_counts(nodes, boxes, child_r_index as int, crossed, shape);
                let left = if crossed(child_l_aabb) {
                    walk(nodes, child_l_index as int, crossed)
                } else {
                    Seq::empty()
                };
                let right = if crossed(child_r_aabb) {
                    walk(nodes, child_r_index as int, crossed)
                } else {
                    Seq::empty()
                };
                assert(walk(nodes, k, crossed) == left + right);
                lemma_multiset_commutative(left, right);
                assert(Seq::<usize>::empty().to_multiset() =~= Multiset::empty());
            },
        }
    } else {
        assert(Seq::<usize>::empty().to_multiset() =~= Multiset::empty());
    }
}

/// In a hierarchy a walk collects no surface twice.
pub proof fn lemma_walk_is_duplicate_free(
    nodes: Seq<BvhNode>,
    boxes: Seq<Aabb>,
    crossed: spec_fn(Aabb) -> bool,
)
    requires
        is_hierarchy(nodes, boxes),
    ensures
        walk(nodes, 0, crossed).no_duplicates(),
{
    broadcast use group_multiset_axioms;
    broadcast use group_to_multiset_ensures;

    let found = walk(nodes, 0, crossed);
    lemma_walk_names_surfaces(nodes, boxes, 0, crossed);
    assert forall|x: usize| found.to_multiset().contains(x) implies found.to_multiset().count(x)
        == 1 by {
        lemma_walk_counts(nodes, boxes, 0, crossed, x);
        assert(found.contains(x));
        let i = choose|i: int| 0 <= i < found.len() && found[i] == x;
        assert(found[i] < boxes.len());
    }
    found.lemma_multiset_has_no_duplicates_conv();
}

/// A walk collects only surfaces that leaves at or below its starting node
/// name.
pub proof fn lemma_walk_names_surfaces(
    nodes: Seq<BvhNode>,
    boxes: Seq<Aabb>,
    k: int,
    crossed: spec_fn(Aabb) -> bool,
)
    requires
        in_order(nodes, boxes),
    ensures
        forall|i: int|
            0 <= i < walk(nodes, k, crossed).len() ==> {
                &&& #[trigger] walk(nodes, k, crossed)[i] < boxes.len()
                &&& holds(nodes, k, walk(nodes, k, crossed)[i] as int)
            },
    decreases nodes.len() - k,
{
    if 0 <= k < nodes.len() {
        assert(node_in_order(nodes, boxes, k));
        match nodes[k] {
            BvhNode::Leaf { shape_index } => {},
            BvhNode::Node { child_l_index, child_l_aabb, child_r_index, child_r_aabb } => {
                lemma_walk_names_surfaces(nodes, boxes, child_l_index as int, crossed);
                lemma_walk_names_surfaces(nodes, boxes, child_r_index as int, crossed);
                let left = if crossed(child_l_aabb) {
                    walk(nodes, child_l_index as int, crossed)
                } else {
                    Seq::empty()
                };
                let right = if crossed(child_r_aabb) {
                    walk(nodes, child_r_index as int, crossed)
                } else {
                    Seq::empty()
                };
                let all = walk(nodes, k, crossed);
                assert(all == left + right);
                assert forall|i: int| 0 <= i < all.len() implies {
                    &&& #[trigger] all[i] < boxes.len()
                    &&& holds(nodes, k, all[i] as int)
                } by {
                    if i < left.len() {
                        assert(all[i] == left[i]);
                    } else {
                        assert(all[i] == right[i - left.len()]);
                    }
                }
            },
        }
    }
}

} // verus!
