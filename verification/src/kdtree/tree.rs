//! The tree over a list of bounds.
use std::collections::HashSet;
use vstd::prelude::*;
use crate::aabb::{Aabb, Point3};
use crate::kdtree::candidate::{Candidate, Candidates, has_starts, begins_on, sorted, leaf_items};
use crate::kdtree::cost::MAX_EVENTS;
use crate::kdtree::coverage::{
    allows,
    inside,
    present,
    lemma_built_covers,
    lemma_single_leaf,
    lemma_walk_reaches,
    lemma_leaf_items_contains,
    lemma_leaf_items_present,
};
use crate::kdtree::node::Node;
use crate::kdtree::plane::{Plane, Side};
use crate::kdtree::sort::sort_candidates;
use crate::kdtree::traverse::always;

verus! {

/// The plane across axis `d` at `position`.
pub open spec fn plane_of(d: int, position: int) -> Plane {
    if d == 0 {
        Plane::X(position as i32)
    } else if d == 1 {
        Plane::Y(position as i32)
    } else {
        Plane::Z(position as i32)
    }
}

/// The candidate for one end of the bounds `b` of primitive `id`: the lower
/// end on axis `d` where `left`, else the upper end.
pub open spec fn end_of(b: Aabb, id: usize, d: int, left: bool) -> Candidate {
    Candidate {
        item: id,
        plane: plane_of(
            d,
            if left {
                b.min.get(d)
            } else {
                b.max.get(d)
            },
        ),
        is_left: left,
    }
}

/// The six candidates of primitive `id` with bounds `b`: on each axis its
/// lower and its upper end.
pub open spec fn six(b: Aabb, id: usize) -> Seq<Candidate> {
    seq![
        end_of(b, id, 0, true),
        end_of(b, id, 0, false),
        end_of(b, id, 1, true),
        end_of(b, id, 1, false),
        end_of(b, id, 2, true),
        end_of(b, id, 2, false),
    ]
}

/// The candidates of the first `i` primitives, primitive by primitive.
pub open spec fn events_of(bounds: Seq<Aabb>, i: int) -> Seq<Candidate>
    decreases i,
{
    if i <= 0 {
        Seq::empty()
    } else {
        events_of(bounds, i - 1) + six(bounds[i - 1], (i - 1) as usize)
    }
}

/// The smallest box around the first `i` bounds.
pub open spec fn bounding(bounds: Seq<Aabb>, i: int) -> Aabb
    decreases i,
{
    if i <= 0 {
        Aabb::empty_spec()
    } else {
        bounding(bounds, i - 1).join_spec(bounds[i - 1])
    }
}

/// Whether `cs` is a sweep of the primitives with these bounds: their
/// candidates, all of them and no others, in sweep order.
pub open spec fn is_sweep_of(cs: Seq<Candidate>, bounds: Seq<Aabb>) -> bool {
    sorted(cs) && cs.to_multiset() == events_of(bounds, bounds.len() as int).to_multiset()
}

/// Each candidate of a list of bounds is an end of the bounds of its
/// primitive, and each such end is among the candidates.
pub proof fn lemma_events(bounds: Seq<Aabb>, i: int)
    requires
        0 <= i <= bounds.len(),
        i <= usize::MAX,
    ensures
        events_of(bounds, i).len() == 6 * i,
        forall|k: int|
            0 <= k < events_of(bounds, i).len() ==> {
                let c = #[trigger] events_of(bounds, i)[k];
                c.item < i && 0 <= c.plane.dim() < 3 && c == end_of(
                    bounds[c.item as int],
                    c.item,
                    c.plane.dim(),
                    c.is_left,
                )
            },
        forall|id: usize, d: int, left: bool|
            id < i && 0 <= d < 3 ==> events_of(bounds, i).contains(
                #[trigger] end_of(bounds[id as int], id, d, left),
            ),
    decreases i,
{
    if i > 0 {
        lemma_events(bounds, i - 1);
        let prev = events_of(bounds, i - 1);
        let cur = events_of(bounds, i);
        let b = bounds[i - 1];
        let s = six(b, (i - 1) as usize);
        assert forall|k: int| 0 <= k < cur.len() implies {
            let c = #[trigger] cur[k];
            c.item < i && 0 <= c.plane.dim() < 3 && c == end_of(
                bounds[c.item as int],
                c.item,
                c.plane.dim(),
                c.is_left,
            )
        } by {
            if k < prev.len() {
                assert(cur[k] == prev[k]);
            } else {
                assert(cur[k] == s[k - prev.len()]);
            }
        }
        assert forall|id: usize, d: int, left: bool| id < i && 0 <= d < 3 implies cur.contains(
            #[trigger] end_of(bounds[id as int], id, d, left),
        ) by {
            let e = end_of(bounds[id as int], id, d, left);
            if id < i - 1 {
                let k = choose|k: int| 0 <= k < prev.len() && prev[k] == e;
                assert(cur[k] == e);
            } else {
                let off = 2 * d + if left {
                    0int
                } else {
                    1int
                };
                assert(s[off] == e);
                assert(cur[prev.len() + off] == e);
            }
        }
    }
}

/// A sweep of a list of bounds has what the tree is built from: the lower
/// ends of each primitive, and for each primitive the point set of its bounds.
pub proof fn lemma_sweep(cs: Seq<Candidate>, bounds: Seq<Aabb>)
    requires
        is_sweep_of(cs, bounds),
        bounds.len() <= usize::MAX,
    ensures
        cs.len() == 6 * bounds.len(),
        has_starts(cs),
        forall|k: int| 0 <= k < cs.len() ==> (#[trigger] cs[k]).item < bounds.len(),
        forall|id: usize| id < bounds.len() ==> #[trigger] present(cs, id),
        forall|id: usize, cell: Aabb|
            id < bounds.len() && bounds[id as int].encloses(cell) ==> #[trigger] inside(
                cs,
                id,
                cell,
            ),
        forall|k: int|
            0 <= k < cs.len() ==> {
                let c = #[trigger] cs[k];
                0 <= c.plane.dim() < 3 && c == end_of(
                    bounds[c.item as int],
                    c.item,
                    c.plane.dim(),
                    c.is_left,
                )
            },
{
    let n = bounds.len() as int;
    let ev = events_of(bounds, n);
    lemma_events(bounds, n);
    cs.to_multiset_ensures();
    ev.to_multiset_ensures();
    assert forall|k: int| 0 <= k < cs.len() implies {
        let c = #[trigger] cs[k];
        c.item < n && 0 <= c.plane.dim() < 3 && c == end_of(
            bounds[c.item as int],
            c.item,
            c.plane.dim(),
            c.is_left,
        )
    } by {
        let c = cs[k];
        assert(cs.contains(c));
        assert(cs.to_multiset().count(c) > 0);
        assert(ev.to_multiset().count(c) > 0);
        assert(ev.contains(c));
        let j = choose|j: int| 0 <= j < ev.len() && ev[j] == c;
        assert(ev[j] == c);
    }
    assert forall|id: usize, d: int, left: bool| id < n && 0 <= d < 3 implies cs.contains(
        #[trigger] end_of(bounds[id as int], id, d, left),
    ) by {
        let e = end_of(bounds[id as int], id, d, left);
        assert(ev.contains(e));
        assert(ev.to_multiset().count(e) > 0);
        assert(cs.to_multiset().count(e) > 0);
    }
    assert forall|k: int, d: int| 0 <= k < cs.len() && 0 <= d < 3 implies #[trigger] begins_on(
        cs,
        cs[k].item,
        d,
    ) by {
        let id = cs[k].item;
        let e = end_of(bounds[id as int], id, d, true);
        assert(cs.contains(e));
        let j = choose|j: int| 0 <= j < cs.len() && cs[j] == e;
        assert(cs[j].starts(id, d));
    }
    assert forall|id: usize| id < bounds.len() implies #[trigger] present(cs, id) by {
        let e = end_of(bounds[id as int], id, 0, true);
        assert(cs.contains(e));
        let j = choose|j: int| 0 <= j < cs.len() && cs[j] == e;
        assert(cs[j].item == id);
    }
    assert forall|id: usize, cell: Aabb|
        id < bounds.len() && bounds[id as int].encloses(cell) implies #[trigger] inside(
        cs,
        id,
        cell,
    ) by {
        let b = bounds[id as int];
        assert forall|k: int| 0 <= k < cs.len() && (#[trigger] cs[k]).item == id implies allows(
            cs[k],
            cell,
        ) by {
            let c = cs[k];
            let d = c.plane.dim();
            assert(c == end_of(b, id, d, c.is_left));
            assert(b.min.get(d) <= cell.min.get(d) && cell.max.get(d) <= b.max.get(d));
        }
    }
}

/// There is one sweep of a list of bounds and no other, so that the tree over
/// the bounds is one tree.
pub proof fn lemma_sweep_unique(a: Seq<Candidate>, b: Seq<Candidate>, bounds: Seq<Aabb>)
    requires
        is_sweep_of(a, bounds),
        is_sweep_of(b, bounds),
    ensures
        a == b,
{
    let leq = |x: Candidate, y: Candidate| x.before_eq(y);
    assert(vstd::relations::total_ordering(leq)) by {
        assert forall|x: Candidate| #[trigger] leq(x, x) by {
            crate::kdtree::sort::lemma_order(x, x, x);
        }
        assert forall|x: Candidate, y: Candidate| #[trigger] leq(x, y) && #[trigger] leq(
            y,
            x,
        ) implies x == y by {
            crate::kdtree::sort::lemma_order(x, y, x);
        }
        assert forall|x: Candidate, y: Candidate, z: Candidate| #[trigger] leq(x, y) && #[trigger] leq(
            y,
            z,
        ) implies leq(x, z) by {
            crate::kdtree::sort::lemma_order(x, y, z);
        }
        assert forall|x: Candidate, y: Candidate| #[trigger] leq(x, y) || #[trigger] leq(y, x) by {
            crate::kdtree::sort::lemma_order(x, y, x);
        }
    }
    assert(vstd::relations::sorted_by(a, leq)) by {
        assert forall|i: int, j: int| 0 <= i < j < a.len() implies #[trigger] leq(a[i], a[j]) by {
            assert(a[i].before_eq(a[j]));
        }
    }
    assert(vstd::relations::sorted_by(b, leq)) by {
        assert forall|i: int, j: int| 0 <= i < j < b.len() implies #[trigger] leq(b[i], b[j]) by {
            assert(b[i].before_eq(b[j]));
        }
    }
    vstd::seq_lib::lemma_sorted_unique(a, b, leq);
}

/// The box around a list of bounds encloses each of them.
pub proof fn lemma_bounding(bounds: Seq<Aabb>, i: int, j: int)
    requires
        0 <= j < i <= bounds.len(),
    ensures
        bounding(bounds, i).encloses(bounds[j]),
    decreases i,
{
    let prev = bounding(bounds, i - 1);
    let cur = bounding(bounds, i);
    if j < i - 1 {
        lemma_bounding(bounds, i - 1, j);
        assert forall|d: int| 0 <= d < 3 implies cur.min.get(d) <= #[trigger] bounds[j].min.get(d)
            && bounds[j].max.get(d) <= cur.max.get(d) by {
            assert(prev.min.get(d) <= bounds[j].min.get(d));
        }
    } else {
        assert forall|d: int| 0 <= d < 3 implies cur.min.get(d) <= #[trigger] bounds[j].min.get(d)
            && bounds[j].max.get(d) <= cur.max.get(d) by {}
    }
}

/// A k-d tree over primitives, known by their indices.
pub struct KdTree {
    /// The box around all the primitives.
    pub space: Aabb,
    pub root: Node,
    /// The number of primitives.
    pub len: usize,
}

impl KdTree {
    /// Whether this is a tree over the primitives with these bounds: its
    /// volume is the box around them, and its root is built from a sweep of
    /// their candidates.
    pub open spec fn represents(self, bounds: Seq<Aabb>) -> bool {
        &&& self.len == bounds.len()
        &&& self.space == bounding(bounds, bounds.len() as int)
        &&& exists|cs: Seq<Candidate>| #[trigger]
            is_sweep_of(cs, bounds) && self.root.built(self.space, cs, bounds.len() as int)
    }

    /// The candidates of the primitives with these bounds, primitive by
    /// primitive: for each axis the lower end, then the upper end.
    pub fn candidates(bounds: &Vec<Aabb>) -> (r: Candidates)
        requires
            6 * bounds@.len() <= usize::MAX,
        ensures
            r@ == events_of(bounds@, bounds@.len() as int),
    {
        let mut r: Candidates = Vec::new();
        let mut id: usize = 0;
        while id < bounds.len()
            invariant
                id <= bounds@.len(),
                6 * bounds@.len() <= usize::MAX,
                r@ == events_of(bounds@, id as int),
            decreases bounds@.len() - id,
        {
            let b = bounds[id];
            let ghost before = r@;
            r.push(Candidate::new(id, Plane::X(b.min.x), true));
            r.push(Candidate::new(id, Plane::X(b.max.x), false));
            r.push(Candidate::new(id, Plane::Y(b.min.y), true));
            r.push(Candidate::new(id, Plane::Y(b.max.y), false));
            r.push(Candidate::new(id, Plane::Z(b.min.z), true));
            r.push(Candidate::new(id, Plane::Z(b.max.z), false));
            proof {
                assert(r@ =~= before + six(b, id));
            }
            id += 1;
        }
        r
    }

    /// The smallest box around all the bounds.
    pub fn bounds_of(bounds: &Vec<Aabb>) -> (space: Aabb)
        ensures
            space == bounding(bounds@, bounds@.len() as int),
    {
        let mut space = Aabb::empty();
        let mut i: usize = 0;
        while i < bounds.len()
            invariant
                i <= bounds@.len(),
                space == bounding(bounds@, i as int),
            decreases bounds@.len() - i,
        {
            space = space.join(&bounds[i]);
            i += 1;
        }
        space
    }

    /// Builds the tree over the primitives with these bounds; the primitive
    /// with the bounds `bounds[i]` is known as `i`.
    ///
    /// Returns `None` for more primitives than a tree takes, which is a sixth
    /// of `MAX_EVENTS`.
    pub fn new(bounds: &Vec<Aabb>) -> (tree: Option<KdTree>)
        ensures
            tree is Some <==> 6 * bounds@.len() <= MAX_EVENTS,
            tree matches Some(t) ==> t.represents(bounds@) && t.root.ids_below(t.len as int),
    {
        let n = bounds.len();
        if n > MAX_EVENTS / 6 {
            return None;
        }
        let unsorted = Self::candidates(bounds);
        let candidates = sort_candidates(&unsorted);
        let space = Self::bounds_of(bounds);
        let mut sides: Vec<Side> = Vec::new();
        let mut i: usize = 0;
        while i < n
            invariant
                i <= n,
                sides@.len() == i,
            decreases n - i,
        {
            sides.push(Side::Both);
            i += 1;
        }
        proof {
            assert(is_sweep_of(candidates@, bounds@));
            lemma_sweep(candidates@, bounds@);
        }
        let ghost cs = candidates@;
        let root = Node::new(space, candidates, n, &mut sides);
        proof {
            crate::kdtree::query::lemma_built_ids(root, space, cs, n as int, n as int);
        }
        Some(KdTree { space, root, len: n })
    }

    /// The primitives of every leaf that the query leads to, each once. The
    /// walk descends into each child whose volume `touches` accepts.
    pub fn intersect<F: Fn(&Aabb) -> bool>(&self, touches: &F) -> (items: HashSet<usize>)
        requires
            forall|space: Aabb| call_requires(*touches, (&space,)),
        ensures
            forall|id: usize| self.root.surely_reached(*touches, id) ==> items@.contains(id),
            forall|id: usize| items@.contains(id) ==> self.root.possibly_reached(*touches, id),
    {
        let mut items: HashSet<usize> = HashSet::new();
        self.root.intersect(touches, &mut items);
        items
    }
}

/// A walk finds every primitive whose bounds it passes through: where the
/// query accepts every volume around some cell within the bounds of a
/// primitive, the walk collects that primitive.
pub proof fn lemma_tree_finds<F: Fn(&Aabb) -> bool>(
    tree: KdTree,
    bounds: Seq<Aabb>,
    touches: F,
    id: usize,
    cell: Aabb,
)
    requires
        tree.represents(bounds),
        bounds.len() <= usize::MAX,
        id < bounds.len(),
        cell.is_cell(),
        bounds[id as int].encloses(cell),
        forall|space: Aabb| space.encloses(cell) ==> #[trigger] always(touches, space),
    ensures
        tree.root.surely_reached(touches, id),
{
    let n = bounds.len() as int;
    let cs = choose|cs: Seq<Candidate>| #[trigger]
        is_sweep_of(cs, bounds) && tree.root.built(tree.space, cs, n);
    lemma_sweep(cs, bounds);
    lemma_bounding(bounds, n, id as int);
    assert(present(cs, id));
    assert(inside(cs, id, cell));
    assert(tree.space.encloses(cell)) by {
        let b = bounds[id as int];
        assert forall|d: int| 0 <= d < 3 implies tree.space.min.get(d) <= #[trigger] cell.min.get(
            d,
        ) && cell.max.get(d) <= tree.space.max.get(d) by {
            assert(tree.space.min.get(d) <= b.min.get(d));
            assert(b.min.get(d) <= cell.min.get(d) && cell.max.get(d) <= b.max.get(d));
        }
    }
    lemma_built_covers(tree.root, tree.space, cs, n, id, cell);
    lemma_walk_reaches(tree.root, touches, cell, id);
}

/// The tree over a single primitive is a single leaf, and the leaf holds the
/// primitive: a walk comes down to the one test against it.
pub proof fn lemma_single_primitive(tree: KdTree, bounds: Seq<Aabb>)
    requires
        tree.represents(bounds),
        bounds.len() == 1,
    ensures
        tree.root is Leaf,
        tree.root->items@.contains(0usize),
        forall|k: int| 0 <= k < tree.root->items@.len() ==> #[trigger] tree.root->items@[k] == 0,
{
    let cs = choose|cs: Seq<Candidate>| #[trigger]
        is_sweep_of(cs, bounds) && tree.root.built(tree.space, cs, 1);
    lemma_sweep(cs, bounds);
    let b = bounds[0];
    assert(bounding(bounds, 0) == Aabb::empty_spec());
    assert(tree.space == Aabb::empty_spec().join_spec(b));
    assert(tree.space == b);
    assert forall|k: int| 0 <= k < cs.len() implies (#[trigger] cs[k]).plane.pos()
        <= tree.space.min.get(cs[k].plane.dim()) || cs[k].plane.pos() >= tree.space.max.get(
        cs[k].plane.dim(),
    ) by {
        let c = cs[k];
        assert(c.item == 0);
        assert(c == end_of(b, 0, c.plane.dim(), c.is_left));
    }
    lemma_single_leaf(tree.root, tree.space, cs, 1);
    let items = leaf_items(cs, cs.len() as int);
    assert(present(cs, 0usize));
    assert(begins_on(cs, cs[0].item, 0));
    let j = choose|j: int| 0 <= j < cs.len() && (#[trigger] cs[j]).starts(0usize, 0);
    lemma_leaf_items_contains(cs, cs.len() as int, j);
    assert forall|k: int| 0 <= k < items.len() implies #[trigger] items[k] == 0 by {
        assert(items.contains(items[k]));
        lemma_leaf_items_present(cs, cs.len() as int, items[k]);
        let t = choose|t: int| 0 <= t < cs.len() && (#[trigger] cs[t]).item == items[k];
        assert(cs[t].item < 1);
    }
}

} // verus!
