//! The nodes of the tree, and how a node is built from its candidates.
use vstd::prelude::*;
use crate::aabb::Aabb;
use crate::kdtree::candidate::{
    Candidate,
    Candidates,
    has_starts,
    begins_on,
    keep,
    leaf_items,
    lefts,
    rights,
    lemma_counts,
    n_left_at,
    n_right_at,
};
use crate::kdtree::cost::{
    Cost,
    cost,
    cost_spec,
    split_space,
    split_space_spec,
    lemma_halves_bounded,
    lemma_finite_cost,
    MAX_EVENTS,
};
use crate::kdtree::plane::Side;

verus! {

/// An inner node: a split plane, given by the two volumes it leaves.
pub struct InternalNode {
    pub left_space: Aabb,
    pub left_node: Node,
    pub right_space: Aabb,
    pub right_node: Node,
}

impl InternalNode {
    /// The inner node with these two volumes and the trees in them.
    pub fn new(left_space: Aabb, left_node: Node, right_space: Aabb, right_node: Node) -> (node:
        InternalNode)
        ensures
            node.left_space == left_space,
            node.left_node == left_node,
            node.right_space == right_space,
            node.right_node == right_node,
    {
        InternalNode { left_space, left_node, right_space, right_node }
    }
}

/// A node of the tree.
pub enum Node {
    /// The indices of the primitives that reach into this part of space.
    Leaf { items: Vec<usize> },
    Node { node: Box<InternalNode> },
}

/// What it costs to split `space` by the plane of candidate `i`.
pub open spec fn cost_at(cs: Seq<Candidate>, space: Aabb, i: int) -> Cost {
    cost_spec(cs[i].plane, space, n_left_at(cs, i) as int, n_right_at(cs, i) as int)
}

/// Whether no candidate splits `space` at a finite cost.
pub open spec fn all_infinite(cs: Seq<Candidate>, space: Aabb) -> bool {
    forall|i: int| 0 <= i < cs.len() ==> #[trigger] cost_at(cs, space, i) == Cost::Infinite
}

/// Whether candidate `b` is the best split of `space`: its cost is finite, no
/// candidate costs less, and every candidate before it costs more.
pub open spec fn is_best(cs: Seq<Candidate>, space: Aabb, b: int) -> bool {
    &&& 0 <= b < cs.len()
    &&& cost_at(cs, space, b) != Cost::Infinite
    &&& forall|i: int|
        0 <= i < cs.len() ==> cost_at(cs, space, b).le_spec(#[trigger] cost_at(cs, space, i))
    &&& forall|j: int| 0 <= j < b ==> cost_at(cs, space, b).lt_spec(#[trigger] cost_at(cs, space, j))
}

/// There is at most one best split.
pub proof fn lemma_best_unique(cs: Seq<Candidate>, space: Aabb, a: int, b: int)
    requires
        is_best(cs, space, a),
        is_best(cs, space, b),
    ensures
        a == b,
{
    if a < b {
        assert(cost_at(cs, space, b).lt_spec(cost_at(cs, space, a)));
        assert(cost_at(cs, space, a).le_spec(cost_at(cs, space, b)));
    } else if b < a {
        assert(cost_at(cs, space, a).lt_spec(cost_at(cs, space, b)));
        assert(cost_at(cs, space, b).le_spec(cost_at(cs, space, a)));
    }
}

/// The kind of the last end of primitive `id` on axis `d` among the first `i`
/// candidates: `Some(true)` for a lower end, `Some(false)` for an upper end,
/// `None` where the primitive has no end there.
pub open spec fn last_kind(cs: Seq<Candidate>, d: int, id: usize, i: int) -> Option<bool>
    decreases i,
{
    if i <= 0 {
        None
    } else if cs[i - 1].touches(id, d) {
        Some(cs[i - 1].is_left)
    } else {
        last_kind(cs, d, id, i - 1)
    }
}

/// Whether primitive `id` begins on axis `d` at one of the candidates from
/// `lo` up to, not including, `hi`.
pub open spec fn starts_in(cs: Seq<Candidate>, d: int, id: usize, lo: int, hi: int) -> bool
    decreases hi - lo,
{
    if hi <= lo {
        false
    } else {
        cs[hi - 1].starts(id, d) || starts_in(cs, d, id, lo, hi - 1)
    }
}

/// The side of primitive `id` once the candidates have been classified by the
/// plane of candidate `b`, where `before` was its side until then.
///
/// A primitive that begins at or after `b` lies on the right. One whose last
/// end up to `b` is its upper end lies on the left. One that has begun before
/// `b` and not ended lies on both sides. A primitive without an end on the
/// axis keeps the side it had.
pub open spec fn side_after(cs: Seq<Candidate>, b: int, id: usize, before: Side) -> Side {
    let d = cs[b].plane.dim();
    if starts_in(cs, d, id, b, cs.len() as int) {
        Side::Right
    } else {
        match last_kind(cs, d, id, b + 1) {
            Some(true) => Side::Both,
            Some(false) => Side::Left,
            None => before,
        }
    }
}

/// The side of primitive `id` with respect to the plane of candidate `b`.
pub open spec fn side_of(cs: Seq<Candidate>, b: int, id: usize) -> Side {
    side_after(cs, b, id, Side::Both)
}

/// The candidates, among the first `i`, of the primitives that `sides` does
/// not put on the right.
pub open spec fn spliced_left(cs: Seq<Candidate>, sides: Seq<Side>, i: int) -> Seq<Candidate>
    decreases i,
{
    if i <= 0 {
        Seq::empty()
    } else if sides[cs[i - 1].item as int] != Side::Right {
        spliced_left(cs, sides, i - 1).push(cs[i - 1])
    } else {
        spliced_left(cs, sides, i - 1)
    }
}

/// The candidates, among the first `i`, of the primitives that `sides` does
/// not put on the left.
pub open spec fn spliced_right(cs: Seq<Candidate>, sides: Seq<Side>, i: int) -> Seq<Candidate>
    decreases i,
{
    if i <= 0 {
        Seq::empty()
    } else if sides[cs[i - 1].item as int] != Side::Left {
        spliced_right(cs, sides, i - 1).push(cs[i - 1])
    } else {
        spliced_right(cs, sides, i - 1)
    }
}

/// The candidates that go to the left child when the node splits at candidate
/// `b`: those of the primitives on the left and on both sides, in their order.
pub open spec fn left_list(cs: Seq<Candidate>, b: int) -> Seq<Candidate> {
    keep(cs, |c: Candidate| side_of(cs, b, c.item) != Side::Right, cs.len() as int)
}

/// The candidates that go to the right child when the node splits at
/// candidate `b`.
pub open spec fn right_list(cs: Seq<Candidate>, b: int) -> Seq<Candidate> {
    keep(cs, |c: Candidate| side_of(cs, b, c.item) != Side::Left, cs.len() as int)
}

/// Whether `r` is what the sweep of [`Node::partition`] holds once it has
/// taken in the first `i` candidates: nothing finite yet, or the best split
/// among them.
#[verifier::opaque]
pub open spec fn best_among(
    cs: Seq<Candidate>,
    space: Aabb,
    n: int,
    i: int,
    r: (Cost, usize, usize, usize),
) -> bool {
    &&& r.0 == Cost::Infinite ==> r.1 == 0 && r.2 == 0 && r.3 == n && forall|j: int|
        0 <= j < i ==> #[trigger] cost_at(cs, space, j) == Cost::Infinite
    &&& r.0 != Cost::Infinite ==> {
        &&& r.1 < i
        &&& r.0 == cost_at(cs, space, r.1 as int)
        &&& r.2 == n_left_at(cs, r.1 as int)
        &&& r.3 == n_right_at(cs, r.1 as int)
        &&& forall|j: int| 0 <= j < i ==> r.0.le_spec(#[trigger] cost_at(cs, space, j))
        &&& forall|j: int| 0 <= j < r.1 ==> r.0.lt_spec(#[trigger] cost_at(cs, space, j))
    }
}

/// One step of the sweep: candidate `i` becomes the best split where it costs
/// less than the best so far, and changes nothing otherwise.
pub proof fn lemma_best_step(
    cs: Seq<Candidate>,
    space: Aabb,
    n: int,
    i: int,
    r: (Cost, usize, usize, usize),
)
    requires
        0 <= i < cs.len(),
        i < usize::MAX,
        n_left_at(cs, i) <= usize::MAX,
        n_right_at(cs, i) <= usize::MAX,
        best_among(cs, space, n, i, r),
    ensures
        cost_at(cs, space, i).lt_spec(r.0) ==> best_among(
            cs,
            space,
            n,
            i + 1,
            (cost_at(cs, space, i), i as usize, n_left_at(cs, i) as usize, n_right_at(cs, i) as usize),
        ),
        !cost_at(cs, space, i).lt_spec(r.0) ==> best_among(cs, space, n, i + 1, r),
{
    reveal(best_among);
    let c = cost_at(cs, space, i);
    if c.lt_spec(r.0) {
        let r2 = (c, i as usize, n_left_at(cs, i) as usize, n_right_at(cs, i) as usize);
        assert forall|j: int| 0 <= j < i + 1 implies r2.0.le_spec(#[trigger] cost_at(cs, space, j)) by {
            if j < i && r.0 != Cost::Infinite {
                assert(r.0.le_spec(cost_at(cs, space, j)));
            }
        }
        assert forall|j: int| 0 <= j < i implies r2.0.lt_spec(#[trigger] cost_at(cs, space, j)) by {
            if r.0 != Cost::Infinite {
                assert(r.0.le_spec(cost_at(cs, space, j)));
            }
        }
    } else {
        if r.0 != Cost::Infinite {
            assert forall|j: int| 0 <= j < i + 1 implies r.0.le_spec(#[trigger] cost_at(cs, space, j)) by {
                if j < i {
                    assert(r.0.le_spec(cost_at(cs, space, j)));
                }
            }
        } else {
            assert forall|j: int| 0 <= j < i + 1 implies #[trigger] cost_at(cs, space, j)
                == Cost::Infinite by {
                if j < i {
                    assert(cost_at(cs, space, j) == Cost::Infinite);
                }
            }
        }
    }
}

fn pick(d: usize, a0: usize, a1: usize, a2: usize) -> (r: usize)
    ensures
        r == (if d == 0 {
            a0
        } else if d == 1 {
            a1
        } else {
            a2
        }),
{
    if d == 0 {
        a0
    } else if d == 1 {
        a1
    } else {
        a2
    }
}

impl Node {
    /// Whether this is the tree that [`Node::new`] builds for `space` from the
    /// candidates `cs` of `n` primitives.
    ///
    /// The node is a leaf where no split has a finite cost, or the best split
    /// costs more than `K_I * n`; the leaf then holds every primitive of the
    /// node. Otherwise it splits `space` by the plane of the best candidate,
    /// and each child is the tree of its half, of the candidates on its side
    /// and of the number of primitives that the sweep counted there.
    pub open spec fn built(self, space: Aabb, cs: Seq<Candidate>, n: int) -> bool
        decreases self,
    {
        match self {
            Node::Leaf { items } => {
                &&& items@ == leaf_items(cs, cs.len() as int)
                &&& all_infinite(cs, space) || exists|b: int| #[trigger]
                    is_best(cs, space, b) && cost_at(cs, space, b).exceeds_leaf_spec(
                        n,
                        space.volume_spec(),
                    )
            },
            Node::Node { node } => exists|b: int| #[trigger]
                is_best(cs, space, b) && {
                    &&& !cost_at(cs, space, b).exceeds_leaf_spec(n, space.volume_spec())
                    &&& node.left_space == split_space_spec(space, cs[b].plane).0
                    &&& node.right_space == split_space_spec(space, cs[b].plane).1
                    &&& node.left_node.built(
                        node.left_space,
                        left_list(cs, b),
                        n_left_at(cs, b) as int,
                    )
                    &&& node.right_node.built(
                        node.right_space,
                        right_list(cs, b),
                        n_right_at(cs, b) as int,
                    )
                },
        }
    }

    /// Sweeps the candidates and finds the cheapest split of `space`.
    ///
    /// Returns the cost, the index of the candidate, and the numbers of
    /// primitives left and right of its plane. Of several cheapest candidates
    /// the first wins. Where no candidate has a finite cost, the result is
    /// `(Infinite, 0, 0, n)`.
    pub fn partition(n: usize, space: &Aabb, candidates: &Candidates) -> (r: (
        Cost,
        usize,
        usize,
        usize,
    ))
        requires
            candidates@.len() <= MAX_EVENTS,
        ensures
            r.0 == Cost::Infinite ==> all_infinite(candidates@, *space) && r.1 == 0 && r.2 == 0
                && r.3 == n,
            r.0 != Cost::Infinite ==> is_best(candidates@, *space, r.1 as int) && r.0 == cost_at(
                candidates@,
                *space,
                r.1 as int,
            ) && r.2 == n_left_at(candidates@, r.1 as int) && r.3 == n_right_at(
                candidates@,
                r.1 as int,
            ),
    {
        let ghost cs = candidates@;
        let len = candidates.len();
        // The number of upper ends on each axis: what is right of a plane
        // before the sweep has passed any of them.
        let mut r0: usize = 0;
        let mut r1: usize = 0;
        let mut r2: usize = 0;
        let mut k: usize = 0;
        while k < len
            invariant
                k <= len,
                len == cs.len(),
                cs == candidates@,
                r0 == rights(cs, 0, k as int),
                r1 == rights(cs, 1, k as int),
                r2 == rights(cs, 2, k as int),
            decreases len - k,
        {
            proof {
                lemma_counts(cs, 0, 0, k as int);
                lemma_counts(cs, 1, 0, k as int);
                lemma_counts(cs, 2, 0, k as int);
            }
            let c = candidates[k];
            if !c.is_left {
                let d = c.dimension();
                if d == 0 {
                    r0 += 1;
                } else if d == 1 {
                    r1 += 1;
                } else {
                    r2 += 1;
                }
            }
            k += 1;
        }

        let mut best_cost = Cost::Infinite;
        let mut best_candidate_index: usize = 0;
        let mut best_n_l: usize = 0;
        let mut best_n_r: usize = n;
        // The primitives in both subspaces, for each axis.
        let mut l0: usize = 0;
        let mut l1: usize = 0;
        let mut l2: usize = 0;
        let mut i: usize = 0;
        proof {
            reveal(best_among);
        }
        while i < len
            invariant
                i <= len,
                len == cs.len(),
                len <= MAX_EVENTS,
                cs == candidates@,
                l0 == lefts(cs, 0, i as int),
                l1 == lefts(cs, 1, i as int),
                l2 == lefts(cs, 2, i as int),
                r0 == rights(cs, 0, len as int) - rights(cs, 0, i as int),
                r1 == rights(cs, 1, len as int) - rights(cs, 1, i as int),
                r2 == rights(cs, 2, len as int) - rights(cs, 2, i as int),
                best_among(
                    cs,
                    *space,
                    n as int,
                    i as int,
                    (best_cost, best_candidate_index, best_n_l, best_n_r),
                ),
            decreases len - i,
        {
            let candidate = candidates[i];
            let dim = candidate.dimension();
            proof {
                lemma_counts(cs, dim as int, 0, i as int);
                lemma_counts(cs, dim as int, i as int + 1, len as int);
                lemma_counts(cs, dim as int, 0, len as int);
            }
            // An upper end takes its primitive out of the right subspace.
            if !candidate.is_left {
                if dim == 0 {
                    r0 -= 1;
                } else if dim == 1 {
                    r1 -= 1;
                } else {
                    r2 -= 1;
                }
            }
            let n_l = pick(dim, l0, l1, l2);
            let n_r = pick(dim, r0, r1, r2);
            let c = cost(&candidate.plane, space, n_l, n_r);
            proof {
                lemma_best_step(
                    cs,
                    *space,
                    n as int,
                    i as int,
                    (best_cost, best_candidate_index, best_n_l, best_n_r),
                );
            }
            if c.lt(&best_cost) {
                best_cost = c;
                best_candidate_index = i;
                best_n_l = n_l;
                best_n_r = n_r;
            }
            // A lower end puts its primitive into the left subspace.
            if candidate.is_left {
                if dim == 0 {
                    l0 += 1;
                } else if dim == 1 {
                    l1 += 1;
                } else {
                    l2 += 1;
                }
            }
            i += 1;
        }
        proof {
            reveal(best_among);
        }
        (best_cost, best_candidate_index, best_n_l, best_n_r)
    }

    /// The sides of the primitives with respect to the plane of candidate
    /// `best_index`, written into `sides` at the index of each primitive.
    pub fn classify_items(candidates: &Candidates, best_index: usize, sides: &mut Vec<Side>)
        requires
            best_index < candidates@.len(),
            forall|k: int|
                0 <= k < candidates@.len() ==> (#[trigger] candidates@[k]).item < old(sides)@.len(),
        ensures
            final(sides)@.len() == old(sides)@.len(),
            forall|id: usize|
                id < old(sides)@.len() ==> #[trigger] final(sides)@[id as int] == side_after(
                    candidates@,
                    best_index as int,
                    id,
                    old(sides)@[id as int],
                ),
    {
        let ghost cs = candidates@;
        let ghost before = sides@;
        let len = candidates.len();
        let best_dimension = candidates[best_index].dimension();
        let ghost d = best_dimension as int;
        let mut i: usize = 0;
        while i <= best_index
            invariant
                i <= best_index + 1,
                best_index < cs.len(),
                cs.len() <= usize::MAX,
                cs == candidates@,
                d == best_dimension,
                sides@.len() == before.len(),
                forall|k: int| 0 <= k < cs.len() ==> (#[trigger] cs[k]).item < before.len(),
                forall|id: usize|
                    id < before.len() ==> #[trigger] sides@[id as int] == (match last_kind(
                        cs,
                        d,
                        id,
                        i as int,
                    ) {
                        Some(true) => Side::Both,
                        Some(false) => Side::Left,
                        None => before[id as int],
                    }),
            decreases best_index + 1 - i,
        {
            let c = candidates[i];
            if c.dimension() == best_dimension {
                if !c.is_left {
                    sides.set(c.item, Side::Left);
                } else {
                    sides.set(c.item, Side::Both);
                }
            }
            i += 1;
        }
        let ghost between = sides@;
        let mut i: usize = best_index;
        while i < len
            invariant
                best_index <= i <= len,
                len == cs.len(),
                cs == candidates@,
                d == best_dimension,
                sides@.len() == before.len(),
                between.len() == before.len(),
                forall|k: int| 0 <= k < cs.len() ==> (#[trigger] cs[k]).item < before.len(),
                forall|id: usize|
                    id < before.len() ==> #[trigger] sides@[id as int] == (if starts_in(
                        cs,
                        d,
                        id,
                        best_index as int,
                        i as int,
                    ) {
                        Side::Right
                    } else {
                        between[id as int]
                    }),
            decreases len - i,
        {
            let c = candidates[i];
            if c.dimension() == best_dimension && c.is_left {
                sides.set(c.item, Side::Right);
            }
            i += 1;
        }
    }

    /// The candidates of the two children: each candidate goes where `sides`
    /// puts its primitive, and to both children where the primitive lies on
    /// both sides. The order of the candidates is kept.
    pub fn splicing_candidates(candidates: Candidates, sides: &Vec<Side>) -> (r: (
        Candidates,
        Candidates,
    ))
        requires
            forall|k: int|
                0 <= k < candidates@.len() ==> (#[trigger] candidates@[k]).item < sides@.len(),
        ensures
            r.0@ == spliced_left(candidates@, sides@, candidates@.len() as int),
            r.1@ == spliced_right(candidates@, sides@, candidates@.len() as int),
    {
        let mut left_candidates: Candidates = Vec::with_capacity(candidates.len() / 2);
        let mut right_candidates: Candidates = Vec::with_capacity(candidates.len() / 2);
        let mut i: usize = 0;
        while i < candidates.len()
            invariant
                i <= candidates@.len(),
                forall|k: int|
                    0 <= k < candidates@.len() ==> (#[trigger] candidates@[k]).item < sides@.len(),
                left_candidates@ == spliced_left(candidates@, sides@, i as int),
                right_candidates@ == spliced_right(candidates@, sides@, i as int),
            decreases candidates@.len() - i,
        {
            let e = candidates[i];
            match sides[e.item] {
                Side::Left => left_candidates.push(e),
                Side::Right => right_candidates.push(e),
                Side::Both => {
                    right_candidates.push(e);
                    left_candidates.push(e);
                },
            }
            i += 1;
        }
        (left_candidates, right_candidates)
    }

    /// Classifies the primitives by the plane of candidate `best_index` and
    /// hands each child its candidates.
    pub fn classify(candidates: Candidates, best_index: usize, sides: &mut Vec<Side>) -> (r: (
        Candidates,
        Candidates,
    ))
        requires
            best_index < candidates@.len(),
            has_starts(candidates@),
            forall|k: int|
                0 <= k < candidates@.len() ==> (#[trigger] candidates@[k]).item < old(sides)@.len(),
        ensures
            final(sides)@.len() == old(sides)@.len(),
            r.0@ == left_list(candidates@, best_index as int),
            r.1@ == right_list(candidates@, best_index as int),
    {
        let ghost before = sides@;
        // Step 1: update the sides to classify the primitives.
        Self::classify_items(&candidates, best_index, sides);
        proof {
            lemma_spliced_is_kept(
                candidates@,
                best_index as int,
                before,
                sides@,
                candidates@.len() as int,
            );
        }
        // Step 2: splice the candidates into the two subspaces.
        Self::splicing_candidates(candidates, sides)
    }

    /// Builds the tree for `space` from the candidates of the `n` primitives
    /// that reach into it. `sides` is scratch space with an entry for every
    /// primitive.
    pub fn new(space: Aabb, candidates: Candidates, n: usize, sides: &mut Vec<Side>) -> (tree:
        Node)
        requires
            candidates@.len() <= MAX_EVENTS,
            n <= MAX_EVENTS,
            has_starts(candidates@),
            forall|k: int|
                0 <= k < candidates@.len() ==> (#[trigger] candidates@[k]).item < old(sides)@.len(),
        ensures
            tree.built(space, candidates@, n as int),
            final(sides)@.len() == old(sides)@.len(),
        decreases space.volume_spec(),
    {
        let ghost cs = candidates@;
        let (cost, best_index, n_l, n_r) = Self::partition(n, &space, &candidates);

        // A split that costs more than the leaf is not made.
        if cost.exceeds_leaf(n, space.volume()) {
            let mut items: Vec<usize> = Vec::new();
            let mut i: usize = 0;
            while i < candidates.len()
                invariant
                    i <= candidates@.len(),
                    items@ == leaf_items(candidates@, i as int),
                decreases candidates@.len() - i,
            {
                let c = candidates[i];
                if c.is_left && c.dimension() == 0 {
                    items.push(c.item);
                }
                i += 1;
            }
            return Node::Leaf { items };
        }
        let ghost b = best_index as int;
        assert(is_best(cs, space, b));
        let plane = candidates[best_index].plane;
        let (left_space, right_space) = split_space(&space, &plane);
        proof {
            lemma_finite_cost(plane, space, n_left_at(cs, b) as int, n_right_at(cs, b) as int);
            lemma_halves_bounded(space, plane);
            lemma_counts(cs, plane.dim(), 0, b);
            lemma_counts(cs, plane.dim(), b + 1, cs.len() as int);
            lemma_counts(cs, plane.dim(), 0, cs.len() as int);
            lemma_kept_from(cs, |c: Candidate| side_of(cs, b, c.item) != Side::Right, cs.len() as int);
            lemma_kept_from(cs, |c: Candidate| side_of(cs, b, c.item) != Side::Left, cs.len() as int);
            lemma_kept_has_starts(cs, b, true);
            lemma_kept_has_starts(cs, b, false);
        }
        let (left_candidates, right_candidates) = Self::classify(candidates, best_index, sides);

        let left_node = Self::new(left_space, left_candidates, n_l, sides);
        let right_node = Self::new(right_space, right_candidates, n_r, sides);
        let inner_node = InternalNode::new(left_space, left_node, right_space, right_node);
        Node::Node { node: Box::new(inner_node) }
    }
}

/// A primitive that begins among the candidates from `lo` to `hi` is seen by
/// `starts_in`.
pub proof fn lemma_starts_in(cs: Seq<Candidate>, d: int, id: usize, lo: int, hi: int, j: int)
    requires
        lo <= j < hi,
        cs[j].starts(id, d),
    ensures
        starts_in(cs, d, id, lo, hi),
    decreases hi - lo,
{
    if j < hi - 1 {
        lemma_starts_in(cs, d, id, lo, hi - 1, j);
    }
}

/// A primitive with an end among the first `i` candidates has a last one.
pub proof fn lemma_last_kind(cs: Seq<Candidate>, d: int, id: usize, i: int, j: int)
    requires
        0 <= j < i,
        cs[j].touches(id, d),
    ensures
        last_kind(cs, d, id, i) is Some,
    decreases i,
{
    if j < i - 1 && !cs[i - 1].touches(id, d) {
        lemma_last_kind(cs, d, id, i - 1, j);
    }
}

/// Where every primitive has its lower ends among the candidates, the side of
/// each is decided by the candidates alone, whatever its side was before.
pub proof fn lemma_side_decided(cs: Seq<Candidate>, b: int, id: usize, before: Side)
    requires
        0 <= b < cs.len(),
        begins_on(cs, id, cs[b].plane.dim()),
    ensures
        side_after(cs, b, id, before) == side_of(cs, b, id),
{
    let d = cs[b].plane.dim();
    let j = choose|j: int| 0 <= j < cs.len() && (#[trigger] cs[j]).starts(id, d);
    if j >= b {
        lemma_starts_in(cs, d, id, b, cs.len() as int, j);
    } else {
        lemma_last_kind(cs, d, id, b + 1, j);
    }
}

/// Splicing by the sides that the classification wrote gives the lists of the
/// two children.
pub proof fn lemma_spliced_is_kept(
    cs: Seq<Candidate>,
    b: int,
    before: Seq<Side>,
    sides: Seq<Side>,
    i: int,
)
    requires
        0 <= b < cs.len(),
        0 <= i <= cs.len(),
        has_starts(cs),
        before.len() == sides.len(),
        forall|k: int| 0 <= k < cs.len() ==> (#[trigger] cs[k]).item < sides.len(),
        forall|id: usize|
            id < sides.len() ==> #[trigger] sides[id as int] == side_after(
                cs,
                b,
                id,
                before[id as int],
            ),
    ensures
        spliced_left(cs, sides, i) == keep(
            cs,
            |c: Candidate| side_of(cs, b, c.item) != Side::Right,
            i,
        ),
        spliced_right(cs, sides, i) == keep(
            cs,
            |c: Candidate| side_of(cs, b, c.item) != Side::Left,
            i,
        ),
    decreases i,
{
    if i > 0 {
        lemma_spliced_is_kept(cs, b, before, sides, i - 1);
        let id = cs[i - 1].item;
        assert(begins_on(cs, cs[i - 1].item, cs[b].plane.dim()));
        lemma_side_decided(cs, b, id, before[id as int]);
    }
}

/// What is kept is no longer than what it is kept from, and every kept
/// candidate is one of the candidates that the filter accepts.
pub proof fn lemma_kept_from(cs: Seq<Candidate>, f: spec_fn(Candidate) -> bool, i: int)
    requires
        0 <= i <= cs.len(),
    ensures
        keep(cs, f, i).len() <= i,
        forall|k: int|
            0 <= k < keep(cs, f, i).len() ==> f(#[trigger] keep(cs, f, i)[k]) && exists|j: int|
                0 <= j < i && cs[j] == keep(cs, f, i)[k],
        forall|j: int|
            0 <= j < i && f(cs[j]) ==> exists|k: int|
                0 <= k < keep(cs, f, i).len() && #[trigger] keep(cs, f, i)[k] == cs[j],
    decreases i,
{
    if i > 0 {
        lemma_kept_from(cs, f, i - 1);
        let prev = keep(cs, f, i - 1);
        let cur = keep(cs, f, i);
        assert forall|k: int| 0 <= k < cur.len() implies f(#[trigger] cur[k]) && exists|j: int|
            0 <= j < i && cs[j] == cur[k] by {
            if k < prev.len() {
                let j = choose|j: int| 0 <= j < i - 1 && cs[j] == prev[k];
                assert(cs[j] == cur[k]);
            } else {
                assert(cs[i - 1] == cur[k]);
            }
        }
        assert forall|j: int| 0 <= j < i && f(cs[j]) implies exists|k: int|
            0 <= k < cur.len() && #[trigger] cur[k] == cs[j] by {
            if j < i - 1 {
                let k = choose|k: int| 0 <= k < prev.len() && #[trigger] prev[k] == cs[j];
                assert(cur[k] == cs[j]);
            } else {
                assert(cur[cur.len() - 1] == cs[j]);
            }
        }
    }
}

/// The candidates of a child hold the lower ends of each of its primitives,
/// since a primitive goes to a child with all its candidates.
pub proof fn lemma_kept_has_starts(cs: Seq<Candidate>, b: int, left: bool)
    requires
        has_starts(cs),
    ensures
        left ==> has_starts(left_list(cs, b)),
        !left ==> has_starts(right_list(cs, b)),
{
    let f = if left {
        |c: Candidate| side_of(cs, b, c.item) != Side::Right
    } else {
        |c: Candidate| side_of(cs, b, c.item) != Side::Left
    };
    let kept = keep(cs, f, cs.len() as int);
    lemma_kept_from(cs, f, cs.len() as int);
    assert forall|k: int, d: int| 0 <= k < kept.len() && 0 <= d < 3 implies #[trigger] begins_on(
        kept,
        kept[k].item,
        d,
    ) by {
        let j = choose|j: int| 0 <= j < cs.len() && cs[j] == kept[k];
        assert(begins_on(cs, cs[j].item, d));
        let s = choose|s: int| 0 <= s < cs.len() && (#[trigger] cs[s]).starts(cs[j].item, d);
        assert(f(cs[s]));
        let t = choose|t: int| 0 <= t < kept.len() && #[trigger] kept[t] == cs[s];
        assert(kept[t].starts(kept[k].item, d));
    }
    if left {
        assert(left_list(cs, b) == kept);
    } else {
        assert(right_list(cs, b) == kept);
    }
}

} // verus!
