//! The nearest hit by way of the tree, and why it is the nearest hit of all.
use vstd::prelude::*;
use crate::aabb::Aabb;
use crate::geometry::{Intersectable, Ray};
use crate::kdtree::candidate::Candidate;
use crate::kdtree::coverage::lemma_leaf_items_present;
use crate::kdtree::node::{Node, left_list, right_list, side_of, lemma_kept_from};
use crate::kdtree::plane::Side;
use crate::kdtree::traverse::always;
use crate::kdtree::tree::{KdTree, lemma_tree_finds};
use crate::nearest::{all_ids, nearest_of, search, steady, lemma_search_all, lemma_search_is_nearest};
use crate::scene::SceneIntersection;

verus! {

/// Whether `seen` marks the primitives that are in `out`, and no others.
pub open spec fn marked(seen: Seq<bool>, out: Seq<usize>) -> bool {
    &&& forall|id: usize| id < seen.len() ==> (#[trigger] seen[id as int] <==> out.contains(id))
    &&& forall|k: int| 0 <= k < out.len() ==> (#[trigger] out[k]) < seen.len()
}

impl Node {
    /// Whether every primitive in the tree has an index below `n`.
    pub open spec fn ids_below(self, n: int) -> bool
        decreases self,
    {
        match self {
            Node::Leaf { items } => forall|k: int| 0 <= k < items@.len() ==> (#[trigger] items@[k]) < n,
            Node::Node { node } => node.left_node.ids_below(n) && node.right_node.ids_below(n),
        }
    }

    /// Collects into `out` the primitives of every leaf that the query leads
    /// to, in the order of the walk, each once: `seen` marks the primitives
    /// that are in `out` already.
    pub fn collect<F: Fn(&Aabb) -> bool>(
        &self,
        touches: &F,
        seen: &mut Vec<bool>,
        out: &mut Vec<usize>,
    )
        requires
            forall|space: Aabb| call_requires(*touches, (&space,)),
            self.ids_below(old(seen)@.len() as int),
            marked(old(seen)@, old(out)@),
        ensures
            final(seen)@.len() == old(seen)@.len(),
            marked(final(seen)@, final(out)@),
            forall|id: usize| old(out)@.contains(id) ==> final(out)@.contains(id),
            forall|id: usize| self.surely_reached(*touches, id) ==> final(out)@.contains(id),
            forall|id: usize|
                final(out)@.contains(id) ==> old(out)@.contains(id) || self.possibly_reached(
                    *touches,
                    id,
                ),
        decreases self,
    {
        match self {
            Node::Leaf { items } => {
                let mut i: usize = 0;
                while i < items.len()
                    invariant
                        i <= items@.len(),
                        seen@.len() == old(seen)@.len(),
                        forall|k: int| 0 <= k < items@.len() ==> (#[trigger] items@[k]) < seen@.len(),
                        marked(seen@, out@),
                        forall|id: usize| old(out)@.contains(id) ==> out@.contains(id),
                        forall|k: int| 0 <= k < i ==> out@.contains(#[trigger] items@[k]),
                        forall|id: usize|
                            out@.contains(id) ==> old(out)@.contains(id) || items@.contains(id),
                    decreases items@.len() - i,
                {
                    let id = items[i];
                    if !seen[id] {
                        let ghost before = out@;
                        let ghost seen_before = seen@;
                        seen.set(id, true);
                        out.push(id);
                        proof {
                            lemma_pushed_contains(before, id);
                            assert forall|j: usize| j < seen@.len() implies (#[trigger] seen@[j as int]
                                <==> out@.contains(j)) by {
                                if j != id {
                                    assert(seen@[j as int] == seen_before[j as int]);
                                    assert(seen_before[j as int] <==> before.contains(j));
                                }
                            }
                        }
                    }
                    i += 1;
                }
            },
            Node::Node { node } => {
                if touches(&node.left_space) {
                    node.left_node.collect(touches, seen, out);
                }
                if touches(&node.right_space) {
                    node.right_node.collect(touches, seen, out);
                }
            },
        }
    }
}

/// What is in a sequence after a push: what was in it, and what was pushed.
pub proof fn lemma_pushed_contains(before: Seq<usize>, id: usize)
    ensures
        before.push(id).contains(id),
        forall|j: usize| before.contains(j) ==> before.push(id).contains(j),
        forall|j: usize| before.push(id).contains(j) ==> before.contains(j) || j == id,
{
    let after = before.push(id);
    assert(after[before.len() as int] == id);
    assert forall|j: usize| before.contains(j) implies after.contains(j) by {
        let k = choose|k: int| 0 <= k < before.len() && before[k] == j;
        assert(after[k] == j);
    }
    assert forall|j: usize| after.contains(j) implies before.contains(j) || j == id by {
        let k = choose|k: int| 0 <= k < after.len() && after[k] == j;
        if k < before.len() {
            assert(before[k] == j);
        }
    }
}

/// The primitives of the candidates that are kept are primitives of the
/// candidates they are kept from.
pub proof fn lemma_kept_ids(cs: Seq<Candidate>, f: spec_fn(Candidate) -> bool, bound: int)
    requires
        forall|k: int| 0 <= k < cs.len() ==> (#[trigger] cs[k]).item < bound,
    ensures
        forall|k: int|
            0 <= k < crate::kdtree::candidate::keep(cs, f, cs.len() as int).len() ==> (
            #[trigger] crate::kdtree::candidate::keep(cs, f, cs.len() as int)[k]).item < bound,
{
    let kept = crate::kdtree::candidate::keep(cs, f, cs.len() as int);
    lemma_kept_from(cs, f, cs.len() as int);
    assert forall|k: int| 0 <= k < kept.len() implies (#[trigger] kept[k]).item < bound by {
        let j = choose|j: int| 0 <= j < cs.len() && cs[j] == kept[k];
        assert(cs[j].item < bound);
    }
}

/// A built tree holds no primitive but those of its candidates.
pub proof fn lemma_built_ids(tree: Node, space: Aabb, cs: Seq<Candidate>, n: int, bound: int)
    requires
        tree.built(space, cs, n),
        forall|k: int| 0 <= k < cs.len() ==> (#[trigger] cs[k]).item < bound,
    ensures
        tree.ids_below(bound),
    decreases tree,
{
    match tree {
        Node::Leaf { items } => {
            assert forall|k: int| 0 <= k < items@.len() implies (#[trigger] items@[k]) < bound by {
                assert(items@.contains(items@[k]));
                lemma_leaf_items_present(cs, cs.len() as int, items@[k]);
                let t = choose|t: int| 0 <= t < cs.len() && (#[trigger] cs[t]).item == items@[k];
                assert(cs[t].item < bound);
            }
        },
        Node::Node { node } => {
            let b = crate::kdtree::coverage::lemma_split(tree, space, cs, n);
            lemma_kept_ids(cs, |c: Candidate| side_of(cs, b, c.item) != Side::Right, bound);
            lemma_kept_ids(cs, |c: Candidate| side_of(cs, b, c.item) != Side::Left, bound);
            lemma_built_ids(
                node.left_node,
                node.left_space,
                left_list(cs, b),
                crate::kdtree::candidate::n_left_at(cs, b) as int,
                bound,
            );
            lemma_built_ids(
                node.right_node,
                node.right_space,
                right_list(cs, b),
                crate::kdtree::candidate::n_right_at(cs, b) as int,
                bound,
            );
        },
    }
}

/// Whether the query sees the box: whether there is a cell within the box
/// such that the query accepts every volume around the cell. A ray that
/// passes through the box sees it: it passes through a cell of the box, and
/// with it through every volume around that cell.
pub open spec fn seen_by<F: Fn(&Aabb) -> bool>(touches: F, b: Aabb) -> bool {
    exists|cell: Aabb|
        cell.is_cell() && b.encloses(cell) && forall|space: Aabb|
            space.encloses(cell) ==> #[trigger] always(touches, space)
}

/// Whether `ids` is a catch of a walk with `touches`: whether it names only
/// primitives below `n`, and every primitive that the walk cannot miss.
pub open spec fn is_catch<F: Fn(&Aabb) -> bool>(tree: KdTree, touches: F, ids: Seq<usize>, n: int) -> bool {
    &&& forall|k: int| 0 <= k < ids.len() ==> (#[trigger] ids[k]) < n
    &&& forall|id: usize| tree.root.surely_reached(touches, id) ==> ids.contains(id)
    &&& forall|k: int| 0 <= k < ids.len() ==> tree.root.possibly_reached(touches, #[trigger] ids[k])
}

impl KdTree {
    /// The nearest hit of the ray among the primitives that a walk with the
    /// query `touches` collects. `objects[i]` is the primitive that the tree
    /// knows as `i`.
    ///
    /// Returns `None` as well where `objects` is not as long as the tree has
    /// primitives.
    pub fn nearest<T: Intersectable, F: Fn(&Aabb) -> bool>(
        &self,
        objects: &Vec<T>,
        ray: &Ray,
        touches: &F,
    ) -> (r: Option<SceneIntersection>)
        requires
            forall|space: Aabb| call_requires(*touches, (&space,)),
            self.root.ids_below(self.len as int),
        ensures
            objects@.len() != self.len ==> r is None,
            objects@.len() == self.len ==> exists|ids: Seq<usize>| #[trigger]
                is_catch(*self, *touches, ids, self.len as int) && r == nearest_of(
                    objects@,
                    ids,
                    *ray,
                    ids.len() as int,
                ),
            r matches Some(s) ==> s.object < objects@.len() && ray.contains_spec(s.info.t),
    {
        if objects.len() != self.len {
            return None;
        }
        let mut seen: Vec<bool> = Vec::new();
        let mut i: usize = 0;
        while i < self.len
            invariant
                i <= self.len,
                seen@.len() == i,
                forall|k: int| 0 <= k < i ==> !(#[trigger] seen@[k]),
            decreases self.len - i,
        {
            seen.push(false);
            i += 1;
        }
        let mut ids: Vec<usize> = Vec::new();
        self.root.collect(touches, &mut seen, &mut ids);
        let r = search(objects, &ids, ray);
        proof {
            assert forall|k: int| 0 <= k < ids@.len() implies self.root.possibly_reached(
                *touches,
                #[trigger] ids@[k],
            ) by {
                assert(ids@.contains(ids@[k]));
            }
            assert(is_catch(*self, *touches, ids@, self.len as int));
        }
        r
    }
}

/// The nearest hit by way of the tree is the nearest hit of all.
///
/// Take steady primitives, a tree over their bounds, and a query that sees
/// the bounds of every primitive that the ray hits. Then the search among
/// the catch of a walk finds a hit exactly where some primitive is hit, and
/// no primitive at all is hit nearer than what it finds: the same distance
/// as the search among all primitives comes to.
pub proof fn lemma_tree_nearest<T: Intersectable, F: Fn(&Aabb) -> bool>(
    tree: KdTree,
    bounds: Seq<Aabb>,
    objects: Seq<T>,
    ids: Seq<usize>,
    ray: Ray,
    touches: F,
)
    requires
        tree.represents(bounds),
        bounds.len() <= usize::MAX,
        objects.len() == bounds.len(),
        is_catch(tree, touches, ids, bounds.len() as int),
        forall|k: int| 0 <= k < objects.len() ==> steady(#[trigger] objects[k], ray),
        forall|k: int|
            0 <= k < objects.len() && (#[trigger] objects[k]).hit(ray) is Some ==> seen_by(
                touches,
                bounds[k],
            ),
    ensures
        nearest_of(objects, ids, ray, ids.len() as int) is Some <==> exists|k: int|
            0 <= k < objects.len() && (#[trigger] objects[k]).hit(ray) is Some,
        nearest_of(objects, ids, ray, ids.len() as int) matches Some(s) ==> {
            &&& s.object < objects.len()
            &&& objects[s.object as int].hit(ray) matches Some(h) && h.t == s.info.t
            &&& forall|k: int|
                0 <= k < objects.len() ==> ((#[trigger] objects[k]).hit(ray) matches Some(h)
                    ==> s.info.t.le_spec(h.t))
        },
{
    let n = ids.len() as int;
    lemma_search_is_nearest(objects, ids, ray, n);
    let found = nearest_of(objects, ids, ray, n);
    // Every primitive that is hit is in the catch.
    assert forall|k: int| 0 <= k < objects.len() && (#[trigger] objects[k]).hit(ray)
        is Some implies exists|j: int| 0 <= j < n && ids[j] == k by {
        assert(seen_by(touches, bounds[k]));
        let p = choose|cell: Aabb|
            cell.is_cell() && bounds[k].encloses(cell) && forall|space: Aabb|
                space.encloses(cell) ==> #[trigger] always(touches, space);
        lemma_tree_finds(tree, bounds, touches, k as usize, p);
        assert(ids.contains(k as usize));
    }
    if exists|k: int| 0 <= k < objects.len() && (#[trigger] objects[k]).hit(ray) is Some {
        let k = choose|k: int| 0 <= k < objects.len() && (#[trigger] objects[k]).hit(ray) is Some;
        let j = choose|j: int| 0 <= j < n && ids[j] == k;
        assert(objects[ids[j] as int].hit(ray) is Some);
    }
    if found is Some {
        let s = found->0;
        let j = choose|j: int| 0 <= j < n && objects[(#[trigger] ids[j]) as int].hit(ray) is Some;
        assert(objects[ids[j] as int].hit(ray) is Some);
        let w = choose|w: int| 0 <= w < n && (#[trigger] ids[w]) == s.object;
        assert(ids[w] < objects.len());
        assert forall|k: int| 0 <= k < objects.len() implies ((#[trigger] objects[k]).hit(
            ray,
        ) matches Some(h) ==> s.info.t.le_spec(h.t)) by {
            if objects[k].hit(ray) is Some {
                let j = choose|j: int| 0 <= j < n && ids[j] == k;
                assert(objects[ids[j] as int].hit(ray) is Some);
            }
        }
    }
}

/// The tree changes nothing about what is hit: the search among the catch of
/// a walk and the search among all primitives find a hit together or not at
/// all, and at the same distance.
pub proof fn lemma_tree_agrees<T: Intersectable, F: Fn(&Aabb) -> bool>(
    tree: KdTree,
    bounds: Seq<Aabb>,
    objects: Seq<T>,
    ids: Seq<usize>,
    ray: Ray,
    touches: F,
)
    requires
        tree.represents(bounds),
        bounds.len() <= usize::MAX,
        objects.len() == bounds.len(),
        is_catch(tree, touches, ids, bounds.len() as int),
        forall|k: int| 0 <= k < objects.len() ==> steady(#[trigger] objects[k], ray),
        forall|k: int|
            0 <= k < objects.len() && (#[trigger] objects[k]).hit(ray) is Some ==> seen_by(
                touches,
                bounds[k],
            ),
    ensures
        nearest_of(objects, ids, ray, ids.len() as int) is Some <==> nearest_of(
            objects,
            all_ids(objects.len() as int),
            ray,
            objects.len() as int,
        ) is Some,
        nearest_of(objects, ids, ray, ids.len() as int) matches Some(by_tree) ==> nearest_of(
            objects,
            all_ids(objects.len() as int),
            ray,
            objects.len() as int,
        ) matches Some(by_all) && by_tree.info.t.eq_spec(by_all.info.t),
{
    lemma_tree_nearest(tree, bounds, objects, ids, ray, touches);
    lemma_search_all(objects, ray);
    let a = nearest_of(objects, ids, ray, ids.len() as int);
    let b = nearest_of(objects, all_ids(objects.len() as int), ray, objects.len() as int);
    if a is Some {
        let s = a->0;
        let t = b->0;
        assert(objects[s.object as int].hit(ray) is Some);
        assert(objects[t.object as int].hit(ray) is Some);
        assert(t.info.t.le_spec(s.info.t));
        assert(s.info.t.le_spec(t.info.t));
    }
}

} // verus!
