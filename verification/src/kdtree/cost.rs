//! The surface area heuristic.
//!
//! Splitting a volume `V` by a plane into `V_L` and `V_R`, with `n_L` and `n_R`
//! primitives on the two sides, is taken to cost
//!
//! ```text
//! C = bonus * (K_T + K_I * (n_L * |V_L| / |V| + n_R * |V_R| / |V|))
//! ```
//!
//! where `bonus` is 4/5 when a side is empty and 1 otherwise, and `|V|` is
//! `|V_L| + |V_R|`. A plane that leaves a side without volume costs infinitely
//! much. On the lattice all of this is exact: a finite cost is held as the
//! integer `5 * |V| * C`, its numerator over `5 * |V|`.
use vstd::prelude::*;
use crate::aabb::{Aabb, clamp32, spec_clamp, lemma_product_bound, MAX_VOLUME};
use crate::kdtree::plane::Plane;

verus! {

/// The cost of one traversal step.
pub const K_T: u128 = 15;

/// The cost of one intersection test.
pub const K_I: u128 = 20;

/// The most candidates one tree is built from. With at most this many
/// primitives on a side, a cost fits its integer.
pub const MAX_EVENTS: usize = 0x200_0000;

/// What a split costs.
#[derive(Clone, Copy, Debug, PartialEq, Eq, Structural)]
pub enum Cost {
    /// `5 * |V|` times the cost.
    Finite(u128),
    Infinite,
}

impl Cost {
    /// Whether `self` is the smaller cost.
    pub open spec fn lt_spec(self, other: Cost) -> bool {
        match (self, other) {
            (Cost::Finite(a), Cost::Finite(b)) => a < b,
            (Cost::Finite(_), Cost::Infinite) => true,
            (Cost::Infinite, _) => false,
        }
    }

    /// Whether `self` is at most `other`.
    pub open spec fn le_spec(self, other: Cost) -> bool {
        !other.lt_spec(self)
    }

    /// Whether `self` is the smaller cost.
    pub fn lt(&self, other: &Cost) -> (r: bool)
        ensures
            r == self.lt_spec(*other),
    {
        match (self, other) {
            (Cost::Finite(a), Cost::Finite(b)) => *a < *b,
            (Cost::Finite(_), Cost::Infinite) => true,
            (Cost::Infinite, _) => false,
        }
    }

    /// Whether the cost is above that of a leaf of `n` primitives, which is
    /// `K_I * n`. `volume` is the `|V|` that the cost was computed in.
    pub open spec fn exceeds_leaf_spec(self, n: int, volume: int) -> bool {
        match self {
            Cost::Finite(c) => c > 5 * K_I * n * volume,
            Cost::Infinite => true,
        }
    }

    /// Whether the cost is above that of a leaf of `n` primitives.
    pub fn exceeds_leaf(&self, n: usize, volume: u128) -> (r: bool)
        requires
            n <= MAX_EVENTS,
            volume <= MAX_VOLUME,
        ensures
            r == self.exceeds_leaf_spec(n as int, volume as int),
    {
        match self {
            Cost::Finite(c) => {
                let per: u128 = 5 * K_I * (n as u128);
                assert(per * volume <= 3355443200 * 79228162458924105385300197375)
                    by (nonlinear_arith)
                    requires
                        0 <= per <= 3355443200,
                        0 <= volume <= 79228162458924105385300197375,
                ;
                assert(5 * K_I * n * volume == per * volume) by (nonlinear_arith)
                    requires
                        per == 5 * K_I * n,
                ;
                *c > per * volume
            },
            Cost::Infinite => true,
        }
    }
}

/// The two halves of `space` on either side of `plane`. A plane outside the
/// space is moved onto the nearest face first, so that the halves always make
/// up the space.
pub open spec fn split_space_spec(space: Aabb, plane: Plane) -> (Aabb, Aabb) {
    let d = plane.dim();
    let c = spec_clamp(plane.pos(), space.min.get(d), space.max.get(d)) as i32;
    (Aabb { min: space.min, max: space.max.with(d, c) }, Aabb { min: space.min.with(d, c), max: space.max })
}

/// The bonus for cutting off empty space, in fifths.
pub open spec fn bonus_fifths(n_l: int, n_r: int) -> int {
    if n_l == 0 || n_r == 0 {
        4
    } else {
        5
    }
}

/// The cost of splitting `v` by `p` with `n_l` primitives on the left and
/// `n_r` on the right.
#[verifier::opaque]
pub open spec fn cost_spec(p: Plane, v: Aabb, n_l: int, n_r: int) -> Cost {
    let (left, right) = split_space_spec(v, p);
    let vl = left.volume_spec();
    let vr = right.volume_spec();
    if vl == 0 || vr == 0 {
        Cost::Infinite
    } else {
        Cost::Finite(
            (bonus_fifths(n_l, n_r) * (K_T * (vl + vr) + K_I * (n_l * vl + n_r * vr))) as u128,
        )
    }
}

/// The halves of a box make up the box: their volumes add up to its volume.
pub proof fn lemma_split_volumes(space: Aabb, plane: Plane)
    requires
        space.valid(),
    ensures
        split_space_spec(space, plane).0.valid(),
        split_space_spec(space, plane).1.valid(),
        split_space_spec(space, plane).0.volume_spec() + split_space_spec(space, plane).1.volume_spec()
            == space.volume_spec(),
        space.encloses(split_space_spec(space, plane).0),
        space.encloses(split_space_spec(space, plane).1),
{
    let d = plane.dim();
    let (l, r) = split_space_spec(space, plane);
    let c = spec_clamp(plane.pos(), space.min.get(d), space.max.get(d));
    assert(space.min.get(0) <= space.max.get(0));
    assert(space.min.get(1) <= space.max.get(1));
    assert(space.min.get(2) <= space.max.get(2));
    assert(space.min.get(d) <= c <= space.max.get(d));
    assert(l.valid()) by {
        assert forall|e: int| 0 <= e < 3 implies #[trigger] l.min.get(e) <= l.max.get(e) by {}
    }
    assert(r.valid()) by {
        assert forall|e: int| 0 <= e < 3 implies #[trigger] r.min.get(e) <= r.max.get(e) by {}
    }
    let ex = space.extent(0);
    let ey = space.extent(1);
    let ez = space.extent(2);
    if d == 0 {
        let a = l.extent(0);
        let b = r.extent(0);
        assert(a + b == ex);
        assert(a * ey * ez + b * ey * ez == ex * ey * ez) by (nonlinear_arith)
            requires
                a + b == ex,
        ;
    } else if d == 1 {
        let a = l.extent(1);
        let b = r.extent(1);
        assert(a + b == ey);
        assert(ex * a * ez + ex * b * ez == ex * ey * ez) by (nonlinear_arith)
            requires
                a + b == ey,
        ;
    } else {
        let a = l.extent(2);
        let b = r.extent(2);
        assert(a + b == ez);
        assert(ex * ey * a + ex * ey * b == ex * ey * ez) by (nonlinear_arith)
            requires
                a + b == ez,
        ;
    }
}

/// The two halves of `space` on either side of `plane`.
pub fn split_space(space: &Aabb, plane: &Plane) -> (halves: (Aabb, Aabb))
    ensures
        halves == split_space_spec(*space, *plane),
{
    let mut left = *space;
    let mut right = *space;
    match plane {
        Plane::X(x) => {
            let c = clamp32(*x, space.min.x, space.max.x);
            left.max.x = c;
            right.min.x = c;
        },
        Plane::Y(y) => {
            let c = clamp32(*y, space.min.y, space.max.y);
            left.max.y = c;
            right.min.y = c;
        },
        Plane::Z(z) => {
            let c = clamp32(*z, space.min.z, space.max.z);
            left.max.z = c;
            right.min.z = c;
        },
    }
    (left, right)
}

/// The cost of splitting `v` by `p` with `n_l` primitives on the left and
/// `n_r` on the right.
pub fn cost(p: &Plane, v: &Aabb, n_l: usize, n_r: usize) -> (c: Cost)
    requires
        n_l <= MAX_EVENTS,
        n_r <= MAX_EVENTS,
    ensures
        c == cost_spec(*p, *v, n_l as int, n_r as int),
{
    proof {
        reveal(cost_spec);
    }
    let (left, right) = split_space(v, p);
    let volume_left = left.volume();
    if volume_left == 0 {
        return Cost::Infinite;
    }
    let volume_right = right.volume();
    if volume_right == 0 {
        return Cost::Infinite;
    }
    proof {
        // Both halves have volume, so the space is a box and the halves make it up.
        lemma_halves_bounded(*v, *p);
    }
    let total_volume = volume_left + volume_right;
    // Decrease the cost if the plane cuts off empty space.
    let factor: u128 = if n_l == 0 || n_r == 0 {
        4
    } else {
        5
    };
    let nl: u128 = n_l as u128;
    let nr: u128 = n_r as u128;
    proof {
        lemma_weighted_bound(nl as int, nr as int, volume_left as int, volume_right as int);
    }
    let weighted: u128 = nl * volume_left + nr * volume_right;
    let inner: u128 = K_T * total_volume + K_I * weighted;
    assert(factor * inner == bonus_fifths(n_l as int, n_r as int) * (K_T * (volume_left
        + volume_right) + K_I * (n_l * volume_left + n_r * volume_right)));
    Cost::Finite(factor * inner)
}

/// A split has a finite cost exactly where both halves have volume.
pub proof fn lemma_finite_cost(p: Plane, v: Aabb, n_l: int, n_r: int)
    ensures
        cost_spec(p, v, n_l, n_r) != Cost::Infinite <==> split_space_spec(v, p).0.volume_spec() > 0
            && split_space_spec(v, p).1.volume_spec() > 0,
{
    reveal(cost_spec);
    let (l, r) = split_space_spec(v, p);
    if l.valid() {
        assert(l.min.get(0) <= l.max.get(0));
        assert(l.min.get(1) <= l.max.get(1));
        assert(l.min.get(2) <= l.max.get(2));
        assert(0 <= l.extent(0) * l.extent(1) * l.extent(2)) by (nonlinear_arith)
            requires
                0 <= l.extent(0),
                0 <= l.extent(1),
                0 <= l.extent(2),
        ;
    }
    if r.valid() {
        assert(r.min.get(0) <= r.max.get(0));
        assert(r.min.get(1) <= r.max.get(1));
        assert(r.min.get(2) <= r.max.get(2));
        assert(0 <= r.extent(0) * r.extent(1) * r.extent(2)) by (nonlinear_arith)
            requires
                0 <= r.extent(0),
                0 <= r.extent(1),
                0 <= r.extent(2),
        ;
    }
}

/// Where both halves of a split have volume, their volumes together stay
/// within the largest volume.
pub proof fn lemma_halves_bounded(v: Aabb, p: Plane)
    requires
        split_space_spec(v, p).0.volume_spec() > 0,
        split_space_spec(v, p).1.volume_spec() > 0,
    ensures
        v.valid(),
        split_space_spec(v, p).0.volume_spec() + split_space_spec(v, p).1.volume_spec()
            == v.volume_spec(),
        v.volume_spec() <= MAX_VOLUME,
{
    let d = p.dim();
    let (l, r) = split_space_spec(v, p);
    assert(l.valid());
    assert(r.valid());
    assert forall|e: int| 0 <= e < 3 implies #[trigger] v.min.get(e) <= v.max.get(e) by {
        assert(l.min.get(e) <= l.max.get(e));
        assert(r.min.get(e) <= r.max.get(e));
    }
    lemma_split_volumes(v, p);
    lemma_product_bound(v.extent(0), v.extent(1), v.extent(2));
}

/// The weighted volumes of a cost stay within its integer.
pub proof fn lemma_weighted_bound(nl: int, nr: int, vl: int, vr: int)
    requires
        0 <= nl <= MAX_EVENTS,
        0 <= nr <= MAX_EVENTS,
        0 <= vl,
        0 <= vr,
        vl + vr <= MAX_VOLUME,
    ensures
        0 <= nl * vl,
        0 <= nr * vr,
        nl * vl + nr * vr <= MAX_EVENTS * MAX_VOLUME,
        5 * (K_T * (vl + vr) + K_I * (nl * vl + nr * vr)) <= u128::MAX,
{
    assert(0 <= nl * vl <= MAX_EVENTS * vl) by (nonlinear_arith)
        requires
            0 <= nl <= MAX_EVENTS,
            0 <= vl,
    ;
    assert(0 <= nr * vr <= MAX_EVENTS * vr) by (nonlinear_arith)
        requires
            0 <= nr <= MAX_EVENTS,
            0 <= vr,
    ;
    assert(MAX_EVENTS * vl + MAX_EVENTS * vr == MAX_EVENTS * (vl + vr)) by (nonlinear_arith);
    assert(MAX_EVENTS * (vl + vr) <= MAX_EVENTS * MAX_VOLUME) by (nonlinear_arith)
        requires
            vl + vr <= MAX_VOLUME,
    ;
}

} // verus!
