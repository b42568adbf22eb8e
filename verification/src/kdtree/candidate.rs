//! Split candidates: the events at which primitives begin and end along an
//! axis.
use vstd::prelude::*;
use crate::kdtree::plane::Plane;

verus! {

/// One end of a primitive's bounds on one axis.
#[derive(Clone, Copy, Debug, PartialEq, Eq, Structural)]
pub struct Candidate {
    /// The index of the primitive.
    pub item: usize,
    /// The plane through this end of the bounds.
    pub plane: Plane,
    /// Whether this is the lower end, where the primitive begins.
    pub is_left: bool,
}

/// The candidates of a node, in sweep order.
pub type Candidates = Vec<Candidate>;

impl Candidate {
    /// The candidate for one end of the bounds of primitive `item`.
    pub fn new(item: usize, plane: Plane, is_left: bool) -> (c: Candidate)
        ensures
            c == (Candidate { item, plane, is_left }),
    {
        Candidate { item, plane, is_left }
    }

    /// The axis of the plane: 0 for x, 1 for y, 2 for z.
    pub fn dimension(&self) -> (d: usize)
        ensures
            d == self.plane.dim(),
            d < 3,
    {
        self.plane.dimension()
    }

    /// Whether this is the lower end of primitive `id` on axis `d`.
    pub open spec fn starts(self, id: usize, d: int) -> bool {
        self.item == id && self.plane.dim() == d && self.is_left
    }

    /// Whether this is either end of primitive `id` on axis `d`.
    pub open spec fn touches(self, id: usize, d: int) -> bool {
        self.item == id && self.plane.dim() == d
    }

    /// The sweep order: by axis, then by position; where a primitive begins
    /// at the position at which another ends, the beginning first; and among
    /// ends of one kind at one position, by the index of the primitive.
    pub open spec fn before_eq(self, other: Candidate) -> bool {
        self.plane.dim() < other.plane.dim() || (self.plane.dim() == other.plane.dim() && (
        self.plane.pos() < other.plane.pos() || (self.plane.pos() == other.plane.pos() && ((
        self.is_left && !other.is_left) || (self.is_left == other.is_left && self.item
            <= other.item)))))
    }

    /// Whether `self` comes no later than `other` in the sweep order.
    pub fn precedes(&self, other: &Candidate) -> (r: bool)
        ensures
            r == self.before_eq(*other),
    {
        let d = self.plane.dimension();
        let e = other.plane.dimension();
        if d != e {
            return d < e;
        }
        let p = self.plane.position();
        let q = other.plane.position();
        if p != q {
            return p < q;
        }
        if self.is_left != other.is_left {
            return self.is_left;
        }
        self.item <= other.item
    }
}

/// Whether the candidates are in sweep order.
pub open spec fn sorted(cs: Seq<Candidate>) -> bool {
    forall|i: int, j: int| 0 <= i <= j < cs.len() ==> (#[trigger] cs[i]).before_eq(#[trigger] cs[j])
}

/// Whether every primitive that occurs among the candidates has its lower end
/// there on each of the three axes.
pub open spec fn has_starts(cs: Seq<Candidate>) -> bool {
    forall|k: int, d: int|
        0 <= k < cs.len() && 0 <= d < 3 ==> #[trigger] begins_on(cs, cs[k].item, d)
}

/// Whether primitive `id` has its lower end on axis `d` among the candidates.
pub open spec fn begins_on(cs: Seq<Candidate>, id: usize, d: int) -> bool {
    exists|j: int| 0 <= j < cs.len() && (#[trigger] cs[j]).starts(id, d)
}

/// How many of the first `i` candidates are lower ends on axis `d`.
pub open spec fn lefts(cs: Seq<Candidate>, d: int, i: int) -> nat
    decreases i,
{
    if i <= 0 {
        0
    } else {
        lefts(cs, d, i - 1) + if cs[i - 1].is_left && cs[i - 1].plane.dim() == d {
            1nat
        } else {
            0nat
        }
    }
}

/// How many of the first `i` candidates are upper ends on axis `d`.
pub open spec fn rights(cs: Seq<Candidate>, d: int, i: int) -> nat
    decreases i,
{
    if i <= 0 {
        0
    } else {
        rights(cs, d, i - 1) + if !cs[i - 1].is_left && cs[i - 1].plane.dim() == d {
            1nat
        } else {
            0nat
        }
    }
}

/// Counts never exceed the number of candidates counted, and grow with it.
pub proof fn lemma_counts(cs: Seq<Candidate>, d: int, i: int, j: int)
    requires
        0 <= i <= j,
    ensures
        lefts(cs, d, i) <= lefts(cs, d, j),
        rights(cs, d, i) <= rights(cs, d, j),
        lefts(cs, d, j) <= lefts(cs, d, i) + (j - i),
        rights(cs, d, j) <= rights(cs, d, i) + (j - i),
        lefts(cs, d, i) <= i,
        rights(cs, d, i) <= i,
    decreases j,
{
    if i < j {
        lemma_counts(cs, d, i, j - 1);
    } else if i > 0 {
        lemma_counts(cs, d, i - 1, i - 1);
    }
}

/// The primitives on the left of a plane through candidate `i`: those that
/// begin before it on its axis.
pub open spec fn n_left_at(cs: Seq<Candidate>, i: int) -> nat {
    lefts(cs, cs[i].plane.dim(), i)
}

/// The primitives on the right of a plane through candidate `i`: those that
/// have not ended on its axis once the sweep has taken in candidate `i`.
pub open spec fn n_right_at(cs: Seq<Candidate>, i: int) -> nat {
    let d = cs[i].plane.dim();
    (rights(cs, d, cs.len() as int) - rights(cs, d, i + 1)) as nat
}

/// The first `i` of the candidates that `f` accepts, in their order.
pub open spec fn keep(cs: Seq<Candidate>, f: spec_fn(Candidate) -> bool, i: int) -> Seq<Candidate>
    decreases i,
{
    if i <= 0 {
        Seq::empty()
    } else if f(cs[i - 1]) {
        keep(cs, f, i - 1).push(cs[i - 1])
    } else {
        keep(cs, f, i - 1)
    }
}

/// The indices of the primitives that begin on the x axis, in the order of
/// the sweep: each primitive of a node once.
pub open spec fn leaf_items(cs: Seq<Candidate>, i: int) -> Seq<usize>
    decreases i,
{
    if i <= 0 {
        Seq::empty()
    } else if cs[i - 1].is_left && cs[i - 1].plane.dim() == 0 {
        leaf_items(cs, i - 1).push(cs[i - 1].item)
    } else {
        leaf_items(cs, i - 1)
    }
}

} // verus!
