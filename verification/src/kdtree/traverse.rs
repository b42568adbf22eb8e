//! Walking the tree with a query, and what the walk is sure to find.
//!
//! A query is a test on volumes: the caller's ray, say, asked whether it
//! passes through a box. The tree never looks into the query; it hands it the
//! volume of each child and descends where the answer is yes.
use std::collections::HashSet;
use vstd::prelude::*;
use crate::aabb::Aabb;
use crate::kdtree::node::Node;

verus! {

/// Whether the query `touches` answers yes on `space` whenever it is asked.
pub open spec fn always<F: Fn(&Aabb) -> bool>(touches: F, space: Aabb) -> bool {
    forall|r: bool| call_ensures(touches, (&space,), r) ==> r
}

/// Whether the query `touches` may answer yes on `space`.
pub open spec fn sometimes<F: Fn(&Aabb) -> bool>(touches: F, space: Aabb) -> bool {
    call_ensures(touches, (&space,), true)
}

impl Node {
    /// Whether primitive `id` is in a leaf that a walk with `touches` cannot
    /// miss: one below volumes that the query accepts whenever asked.
    pub open spec fn surely_reached<F: Fn(&Aabb) -> bool>(self, touches: F, id: usize) -> bool
        decreases self,
    {
        match self {
            Node::Leaf { items } => items@.contains(id),
            Node::Node { node } => (always(touches, node.left_space)
                && node.left_node.surely_reached(touches, id)) || (always(
                touches,
                node.right_space,
            ) && node.right_node.surely_reached(touches, id)),
        }
    }

    /// Whether primitive `id` is in a leaf that a walk with `touches` may get
    /// to: one below volumes that the query may accept.
    pub open spec fn possibly_reached<F: Fn(&Aabb) -> bool>(self, touches: F, id: usize) -> bool
        decreases self,
    {
        match self {
            Node::Leaf { items } => items@.contains(id),
            Node::Node { node } => (sometimes(touches, node.left_space)
                && node.left_node.possibly_reached(touches, id)) || (sometimes(
                touches,
                node.right_space,
            ) && node.right_node.possibly_reached(touches, id)),
        }
    }

    /// Whether primitive `id` is in a leaf whose volume, and the volume of
    /// every node above it, encloses the cell.
    pub open spec fn holds_at(self, cell: Aabb, id: usize) -> bool
        decreases self,
    {
        match self {
            Node::Leaf { items } => items@.contains(id),
            Node::Node { node } => (node.left_space.encloses(cell) && node.left_node.holds_at(
                cell,
                id,
            )) || (node.right_space.encloses(cell) && node.right_node.holds_at(cell, id)),
        }
    }

    /// Collects into `intersect_items` the primitives of every leaf that the
    /// query leads to: the walk descends into each child whose volume
    /// `touches` accepts. A primitive that lies in several leaves is collected
    /// once.
    pub fn intersect<F: Fn(&Aabb) -> bool>(&self, touches: &F, intersect_items: &mut HashSet<usize>)
        requires
            forall|space: Aabb| call_requires(*touches, (&space,)),
        ensures
            forall|id: usize|
                old(intersect_items)@.contains(id) ==> final(intersect_items)@.contains(id),
            forall|id: usize|
                self.surely_reached(*touches, id) ==> final(intersect_items)@.contains(id),
            forall|id: usize|
                final(intersect_items)@.contains(id) ==> old(intersect_items)@.contains(id)
                    || self.possibly_reached(*touches, id),
        decreases self,
    {
        match self {
            Node::Leaf { items } => {
                let mut i: usize = 0;
                while i < items.len()
                    invariant
                        i <= items@.len(),
                        forall|id: usize|
                            old(intersect_items)@.contains(id) ==> intersect_items@.contains(id),
                        forall|k: int| 0 <= k < i ==> intersect_items@.contains(#[trigger] items@[k]),
                        forall|id: usize|
                            intersect_items@.contains(id) ==> old(intersect_items)@.contains(id)
                                || items@.contains(id),
                    decreases items@.len() - i,
                {
                    intersect_items.insert(items[i]);
                    i += 1;
                }
            },
            Node::Node { node } => {
                if touches(&node.left_space) {
                    node.left_node.intersect(touches, intersect_items);
                }
                if touches(&node.right_space) {
                    node.right_node.intersect(touches, intersect_items);
                }
            },
        }
    }
}

} // verus!
