//! What a built tree is good for: a walk finds every primitive at every point
//! of its bounds.
use vstd::prelude::*;
use crate::aabb::Aabb;
use crate::kdtree::candidate::{Candidate, has_starts, begins_on, keep, leaf_items, sorted};
use crate::kdtree::cost::{Cost, cost_spec, split_space_spec, lemma_finite_cost};
use crate::kdtree::node::{
    Node,
    cost_at,
    is_best,
    left_list,
    right_list,
    side_of,
    starts_in,
    last_kind,
    lemma_kept_from,
    lemma_kept_has_starts,
};
use crate::kdtree::plane::Side;
use crate::kdtree::traverse::always;

verus! {

/// Whether primitive `id` occurs among the candidates.
pub open spec fn present(cs: Seq<Candidate>, id: usize) -> bool {
    exists|k: int| 0 <= k < cs.len() && (#[trigger] cs[k]).item == id
}

/// Whether the cell is on the inner side of the end `c`: at or above a lower
/// end, at or below an upper end.
pub open spec fn allows(c: Candidate, cell: Aabb) -> bool {
    if c.is_left {
        c.plane.pos() <= cell.min.get(c.plane.dim())
    } else {
        cell.max.get(c.plane.dim()) <= c.plane.pos()
    }
}

/// Whether the cell lies within the bounds of primitive `id`, as its
/// candidates give them.
pub open spec fn inside(cs: Seq<Candidate>, id: usize, cell: Aabb) -> bool {
    forall|k: int| 0 <= k < cs.len() && (#[trigger] cs[k]).item == id ==> allows(cs[k], cell)
}

/// What is kept of sorted candidates is sorted.
pub proof fn lemma_kept_sorted(cs: Seq<Candidate>, f: spec_fn(Candidate) -> bool, i: int)
    requires
        0 <= i <= cs.len(),
        sorted(cs),
    ensures
        sorted(keep(cs, f, i)),
    decreases i,
{
    if i > 0 {
        lemma_kept_sorted(cs, f, i - 1);
        lemma_kept_from(cs, f, i - 1);
        let prev = keep(cs, f, i - 1);
        let cur = keep(cs, f, i);
        assert forall|a: int, b: int| 0 <= a <= b < cur.len() implies (#[trigger] cur[a]).before_eq(
            #[trigger] cur[b],
        ) by {
            if b < prev.len() {
                assert(prev[a].before_eq(prev[b]));
            } else if a < prev.len() {
                let j = choose|j: int| 0 <= j < i - 1 && cs[j] == prev[a];
                assert(cs[j].before_eq(cs[i - 1]));
            } else {
                assert(cs[i - 1].before_eq(cs[i - 1]));
            }
        }
    }
}

/// A leaf holds every primitive that begins on the x axis among its
/// candidates.
pub proof fn lemma_leaf_items_contains(cs: Seq<Candidate>, i: int, j: int)
    requires
        0 <= j < i <= cs.len(),
        cs[j].is_left,
        cs[j].plane.dim() == 0,
    ensures
        leaf_items(cs, i).contains(cs[j].item),
    decreases i,
{
    if j < i - 1 {
        lemma_leaf_items_contains(cs, i - 1, j);
        let prev = leaf_items(cs, i - 1);
        let k = choose|k: int| 0 <= k < prev.len() && prev[k] == cs[j].item;
        assert(leaf_items(cs, i)[k] == cs[j].item);
    } else {
        let cur = leaf_items(cs, i);
        assert(cur[cur.len() - 1] == cs[j].item);
    }
}

/// A leaf holds no primitive but those among its candidates.
pub proof fn lemma_leaf_items_present(cs: Seq<Candidate>, i: int, id: usize)
    requires
        0 <= i <= cs.len(),
        leaf_items(cs, i).contains(id),
    ensures
        present(cs, id),
    decreases i,
{
    if i > 0 {
        let cur = leaf_items(cs, i);
        let prev = leaf_items(cs, i - 1);
        let k = choose|k: int| 0 <= k < cur.len() && cur[k] == id;
        if k < prev.len() {
            assert(prev[k] == id);
            lemma_leaf_items_present(cs, i - 1, id);
        } else {
            assert(cs[i - 1].item == id);
        }
    }
}

/// Where `starts_in` holds, there is the candidate at which the primitive
/// begins.
pub proof fn lemma_starts_in_witness(cs: Seq<Candidate>, d: int, id: usize, lo: int, hi: int) -> (k:
    int)
    requires
        starts_in(cs, d, id, lo, hi),
    ensures
        lo <= k < hi,
        cs[k].starts(id, d),
    decreases hi - lo,
{
    if cs[hi - 1].starts(id, d) {
        hi - 1
    } else {
        lemma_starts_in_witness(cs, d, id, lo, hi - 1)
    }
}

/// Where a primitive has a last end among the first `i` candidates, there is
/// the candidate of that end.
pub proof fn lemma_last_kind_witness(cs: Seq<Candidate>, d: int, id: usize, i: int) -> (k: int)
    requires
        last_kind(cs, d, id, i) is Some,
    ensures
        0 <= k < i,
        cs[k].touches(id, d),
        last_kind(cs, d, id, i) == Some(cs[k].is_left),
    decreases i,
{
    if cs[i - 1].touches(id, d) {
        i - 1
    } else {
        lemma_last_kind_witness(cs, d, id, i - 1)
    }
}

/// A primitive goes to a child with its candidates: what the child has of it
/// is what the node had, so its bounds there are the same.
pub proof fn lemma_kept_item(cs: Seq<Candidate>, f: spec_fn(Candidate) -> bool, id: usize, p: Aabb)
    requires
        present(cs, id),
        inside(cs, id, p),
        forall|c: Candidate| c.item == id ==> #[trigger] f(c),
    ensures
        present(keep(cs, f, cs.len() as int), id),
        inside(keep(cs, f, cs.len() as int), id, p),
{
    let kept = keep(cs, f, cs.len() as int);
    lemma_kept_from(cs, f, cs.len() as int);
    let k0 = choose|k: int| 0 <= k < cs.len() && (#[trigger] cs[k]).item == id;
    assert(f(cs[k0]));
    let t = choose|t: int| 0 <= t < kept.len() && #[trigger] kept[t] == cs[k0];
    assert(kept[t].item == id);
    assert forall|k: int| 0 <= k < kept.len() && (#[trigger] kept[k]).item == id implies allows(
        kept[k],
        p,
    ) by {
        let j = choose|j: int| 0 <= j < cs.len() && cs[j] == kept[k];
        assert(cs[j].item == id);
    }
}

/// The candidate at which a built inner node splits.
pub proof fn lemma_split(tree: Node, space: Aabb, cs: Seq<Candidate>, n: int) -> (b: int)
    requires
        tree.built(space, cs, n),
        tree is Node,
    ensures
        is_best(cs, space, b),
        !cost_at(cs, space, b).exceeds_leaf_spec(n, space.volume_spec()),
        tree->node.left_space == split_space_spec(space, cs[b].plane).0,
        tree->node.right_space == split_space_spec(space, cs[b].plane).1,
        tree->node.left_node.built(
            tree->node.left_space,
            left_list(cs, b),
            crate::kdtree::candidate::n_left_at(cs, b) as int,
        ),
        tree->node.right_node.built(
            tree->node.right_space,
            right_list(cs, b),
            crate::kdtree::candidate::n_right_at(cs, b) as int,
        ),
{
    let node = tree->node;
    choose|b: int| #[trigger]
        is_best(cs, space, b) && {
            &&& !cost_at(cs, space, b).exceeds_leaf_spec(n, space.volume_spec())
            &&& node.left_space == split_space_spec(space, cs[b].plane).0
            &&& node.right_space == split_space_spec(space, cs[b].plane).1
            &&& node.left_node.built(
                node.left_space,
                left_list(cs, b),
                crate::kdtree::candidate::n_left_at(cs, b) as int,
            )
            &&& node.right_node.built(
                node.right_space,
                right_list(cs, b),
                crate::kdtree::candidate::n_right_at(cs, b) as int,
            )
        }
}

/// A built tree covers its primitives: whatever cell of the node's volume
/// lies within the bounds of a primitive of the node, the primitive is in a
/// leaf whose volume encloses the cell, below nodes whose volumes enclose it.
pub proof fn lemma_built_covers(
    tree: Node,
    space: Aabb,
    cs: Seq<Candidate>,
    n: int,
    id: usize,
    cell: Aabb,
)
    requires
        tree.built(space, cs, n),
        sorted(cs),
        has_starts(cs),
        present(cs, id),
        inside(cs, id, cell),
        cell.is_cell(),
        space.encloses(cell),
    ensures
        tree.holds_at(cell, id),
    decreases tree,
{
    let k0 = choose|k: int| 0 <= k < cs.len() && (#[trigger] cs[k]).item == id;
    match tree {
        Node::Leaf { items } => {
            assert(begins_on(cs, cs[k0].item, 0));
            let j = choose|j: int| 0 <= j < cs.len() && (#[trigger] cs[j]).starts(id, 0);
            lemma_leaf_items_contains(cs, cs.len() as int, j);
        },
        Node::Node { node } => {
            let b = lemma_split(tree, space, cs, n);
            let d = cs[b].plane.dim();
            let pos = cs[b].plane.pos();
            let side = side_of(cs, b, id);
            let fl = |c: Candidate| side_of(cs, b, c.item) != Side::Right;
            let fr = |c: Candidate| side_of(cs, b, c.item) != Side::Left;
            assert(0 <= cell.extent(d) <= 1);
            assert(space.min.get(d) <= cell.min.get(d) && cell.max.get(d) <= space.max.get(d));
            assert(space.min.get(0) <= cell.min.get(0) && cell.max.get(0) <= space.max.get(0));
            assert(space.min.get(1) <= cell.min.get(1) && cell.max.get(1) <= space.max.get(1));
            assert(space.min.get(2) <= cell.min.get(2) && cell.max.get(2) <= space.max.get(2));
            assert(begins_on(cs, cs[k0].item, d));
            // On which side of the plane the cell lies.
            let go_left: bool;
            if side == Side::Right {
                let k = lemma_starts_in_witness(cs, d, id, b, cs.len() as int);
                assert(cs[b].before_eq(cs[k]));
                assert(allows(cs[k], cell));
                go_left = false;
            } else if side == Side::Left {
                let k = lemma_last_kind_witness(cs, d, id, b + 1);
                assert(cs[k].before_eq(cs[b]));
                assert(allows(cs[k], cell));
                go_left = true;
            } else {
                go_left = cell.max.get(d) <= pos;
            }
            if go_left {
                assert(side != Side::Right);
                assert(node.left_space.encloses(cell)) by {
                    assert forall|e: int| 0 <= e < 3 implies node.left_space.min.get(e)
                        <= #[trigger] cell.min.get(e) && cell.max.get(e)
                        <= node.left_space.max.get(e) by {}
                }
                lemma_kept_item(cs, fl, id, cell);
                lemma_kept_sorted(cs, fl, cs.len() as int);
                lemma_kept_has_starts(cs, b, true);
                lemma_built_covers(
                    node.left_node,
                    node.left_space,
                    left_list(cs, b),
                    crate::kdtree::candidate::n_left_at(cs, b) as int,
                    id,
                    cell,
                );
            } else {
                assert(side != Side::Left);
                assert(node.right_space.encloses(cell)) by {
                    assert forall|e: int| 0 <= e < 3 implies node.right_space.min.get(e)
                        <= #[trigger] cell.min.get(e) && cell.max.get(e)
                        <= node.right_space.max.get(e) by {}
                }
                lemma_kept_item(cs, fr, id, cell);
                lemma_kept_sorted(cs, fr, cs.len() as int);
                lemma_kept_has_starts(cs, b, false);
                lemma_built_covers(
                    node.right_node,
                    node.right_space,
                    right_list(cs, b),
                    crate::kdtree::candidate::n_right_at(cs, b) as int,
                    id,
                    cell,
                );
            }
        },
    }
}

/// A walk cannot miss a primitive that the tree holds at a cell, provided the
/// query accepts every volume that encloses the cell.
pub proof fn lemma_walk_reaches<F: Fn(&Aabb) -> bool>(tree: Node, touches: F, p: Aabb, id: usize)
    requires
        tree.holds_at(p, id),
        forall|space: Aabb| space.encloses(p) ==> #[trigger] always(touches, space),
    ensures
        tree.surely_reached(touches, id),
    decreases tree,
{
    match tree {
        Node::Leaf { items } => {},
        Node::Node { node } => {
            if node.left_space.encloses(p) && node.left_node.holds_at(p, id) {
                lemma_walk_reaches(node.left_node, touches, p, id);
            } else {
                lemma_walk_reaches(node.right_node, touches, p, id);
            }
        },
    }
}

/// A built tree holds no primitive but those of its candidates.
pub proof fn lemma_built_only(
    tree: Node,
    space: Aabb,
    cs: Seq<Candidate>,
    n: int,
    p: Aabb,
    id: usize,
)
    requires
        tree.built(space, cs, n),
        tree.holds_at(p, id),
    ensures
        present(cs, id),
    decreases tree,
{
    match tree {
        Node::Leaf { items } => {
            lemma_leaf_items_present(cs, cs.len() as int, id);
        },
        Node::Node { node } => {
            let b = lemma_split(tree, space, cs, n);
            let fl = |c: Candidate| side_of(cs, b, c.item) != Side::Right;
            let fr = |c: Candidate| side_of(cs, b, c.item) != Side::Left;
            if node.left_space.encloses(p) && node.left_node.holds_at(p, id) {
                lemma_built_only(
                    node.left_node,
                    node.left_space,
                    left_list(cs, b),
                    crate::kdtree::candidate::n_left_at(cs, b) as int,
                    p,
                    id,
                );
                lemma_kept_from(cs, fl, cs.len() as int);
                let kept = left_list(cs, b);
                let k = choose|k: int| 0 <= k < kept.len() && (#[trigger] kept[k]).item == id;
                let j = choose|j: int| 0 <= j < cs.len() && cs[j] == kept[k];
                assert(cs[j].item == id);
            } else {
                lemma_built_only(
                    node.right_node,
                    node.right_space,
                    right_list(cs, b),
                    crate::kdtree::candidate::n_right_at(cs, b) as int,
                    p,
                    id,
                );
                lemma_kept_from(cs, fr, cs.len() as int);
                let kept = right_list(cs, b);
                let k = choose|k: int| 0 <= k < kept.len() && (#[trigger] kept[k]).item == id;
                let j = choose|j: int| 0 <= j < cs.len() && cs[j] == kept[k];
                assert(cs[j].item == id);
            }
        },
    }
}

/// A node is left whole where every plane lies on or outside the faces of
/// its volume: each split would then leave a side without volume, and the
/// tree is the one leaf with all the primitives.
pub proof fn lemma_single_leaf(tree: Node, space: Aabb, cs: Seq<Candidate>, n: int)
    requires
        tree.built(space, cs, n),
        forall|k: int|
            0 <= k < cs.len() ==> (#[trigger] cs[k]).plane.pos() <= space.min.get(
                cs[k].plane.dim(),
            ) || cs[k].plane.pos() >= space.max.get(cs[k].plane.dim()),
    ensures
        tree is Leaf,
        tree->items@ == leaf_items(cs, cs.len() as int),
{
    assert forall|i: int| 0 <= i < cs.len() implies #[trigger] cost_at(cs, space, i)
        == Cost::Infinite by {
        lemma_on_face_infinite(
            cs[i].plane,
            space,
            crate::kdtree::candidate::n_left_at(cs, i) as int,
            crate::kdtree::candidate::n_right_at(cs, i) as int,
        );
    }
    match tree {
        Node::Leaf { items } => {},
        Node::Node { node } => {
            let b = choose|b: int| #[trigger] is_best(cs, space, b);
            assert(cost_at(cs, space, b) == Cost::Infinite);
        },
    }
}

/// A plane on or outside a face of the volume costs infinitely much.
pub proof fn lemma_on_face_infinite(p: crate::kdtree::plane::Plane, v: Aabb, n_l: int, n_r: int)
    requires
        p.pos() <= v.min.get(p.dim()) || p.pos() >= v.max.get(p.dim()),
    ensures
        cost_spec(p, v, n_l, n_r) == Cost::Infinite,
{
    lemma_finite_cost(p, v, n_l, n_r);
    let (l, r) = split_space_spec(v, p);
    let d = p.dim();
    if l.valid() && r.valid() {
        assert(l.min.get(d) <= l.max.get(d));
        assert(r.min.get(d) <= r.max.get(d));
        if p.pos() <= v.min.get(d) {
            assert(l.extent(d) == 0);
            assert(l.extent(0) * l.extent(1) * l.extent(2) == 0) by (nonlinear_arith)
                requires
                    l.extent(0) == 0 || l.extent(1) == 0 || l.extent(2) == 0,
            ;
        } else {
            assert(r.extent(d) == 0);
            assert(r.extent(0) * r.extent(1) * r.extent(2) == 0) by (nonlinear_arith)
                requires
                    r.extent(0) == 0 || r.extent(1) == 0 || r.extent(2) == 0,
            ;
        }
    }
}

} // verus!
