//! What the sweep counts: in a sweep of `n` primitives, every axis has `n`
//! lower ends and `n` upper ends, so that the counts left and right of a
//! plane are counts of primitives.
use vstd::prelude::*;
use crate::aabb::Aabb;
use crate::kdtree::candidate::{Candidate, lefts, rights};
use crate::kdtree::tree::{events_of, is_sweep_of, six};

verus! {

/// How many of the first `i` candidates `f` accepts.
pub open spec fn tally(s: Seq<Candidate>, f: spec_fn(Candidate) -> bool, i: int) -> nat
    decreases i,
{
    if i <= 0 {
        0
    } else {
        tally(s, f, i - 1) + if f(s[i - 1]) {
            1nat
        } else {
            0nat
        }
    }
}

/// Whether a candidate is an end on axis `d`, the lower end where `left`.
pub open spec fn is_end(d: int, left: bool) -> spec_fn(Candidate) -> bool {
    |c: Candidate| c.is_left == left && c.plane.dim() == d
}

/// The counts of the sweep are tallies of lower and of upper ends.
pub proof fn lemma_counts_are_tallies(s: Seq<Candidate>, d: int, i: int)
    ensures
        lefts(s, d, i) == tally(s, is_end(d, true), i),
        rights(s, d, i) == tally(s, is_end(d, false), i),
    decreases i,
{
    if i > 0 {
        lemma_counts_are_tallies(s, d, i - 1);
    }
}

/// A tally looks at the candidates it counts and at no others.
pub proof fn lemma_tally_prefix(a: Seq<Candidate>, b: Seq<Candidate>, f: spec_fn(Candidate) -> bool, i: int)
    requires
        forall|k: int| 0 <= k < i ==> a[k] == b[k],
    ensures
        tally(a, f, i) == tally(b, f, i),
    decreases i,
{
    if i > 0 {
        lemma_tally_prefix(a, b, f, i - 1);
    }
}

/// Taking a candidate out takes it out of the tally.
pub proof fn lemma_tally_remove(s: Seq<Candidate>, f: spec_fn(Candidate) -> bool, k: int)
    requires
        0 <= k < s.len(),
    ensures
        tally(s, f, s.len() as int) == tally(s.remove(k), f, s.len() - 1) + if f(s[k]) {
            1nat
        } else {
            0nat
        },
    decreases s.len(),
{
    let n = s.len() as int;
    let r = s.remove(k);
    if k == n - 1 {
        lemma_tally_prefix(s, r, f, n - 1);
    } else {
        let front = s.drop_last();
        lemma_tally_remove(front, f, k);
        lemma_tally_prefix(s, front, f, n - 1);
        lemma_tally_prefix(r, front.remove(k), f, n - 2);
        assert(r[n - 2] == s[n - 1]);
    }
}

/// A tally does not depend on the order of the candidates.
pub proof fn lemma_tally_permuted(a: Seq<Candidate>, b: Seq<Candidate>, f: spec_fn(Candidate) -> bool)
    requires
        a.to_multiset() == b.to_multiset(),
    ensures
        a.len() == b.len(),
        tally(a, f, a.len() as int) == tally(b, f, b.len() as int),
    decreases a.len(),
{
    a.to_multiset_ensures();
    b.to_multiset_ensures();
    let n = a.len() as int;
    if n > 0 {
        let x = a[n - 1];
        assert(a.contains(x));
        assert(a.to_multiset().count(x) > 0);
        assert(b.contains(x));
        let k = choose|k: int| 0 <= k < b.len() && b[k] == x;
        vstd::seq_lib::to_multiset_remove(a, n - 1);
        vstd::seq_lib::to_multiset_remove(b, k);
        lemma_tally_permuted(a.remove(n - 1), b.remove(k), f);
        lemma_tally_remove(a, f, n - 1);
        lemma_tally_remove(b, f, k);
    }
}

/// The tally of two runs, one after the other, is the sum of their tallies.
pub proof fn lemma_tally_concat(a: Seq<Candidate>, b: Seq<Candidate>, f: spec_fn(Candidate) -> bool, i: int)
    requires
        0 <= i <= b.len(),
    ensures
        tally(a + b, f, a.len() + i) == tally(a, f, a.len() as int) + tally(b, f, i),
    decreases i,
{
    if i > 0 {
        lemma_tally_concat(a, b, f, i - 1);
        assert((a + b)[a.len() + i - 1] == b[i - 1]);
    } else {
        lemma_tally_prefix(a + b, a, f, a.len() as int);
    }
}

/// The candidates of `i` primitives hold `i` lower ends and `i` upper ends on
/// each axis.
pub proof fn lemma_events_tally(bounds: Seq<Aabb>, i: int, d: int, left: bool)
    requires
        0 <= i <= bounds.len(),
        0 <= d < 3,
    ensures
        events_of(bounds, i).len() == 6 * i,
        tally(events_of(bounds, i), is_end(d, left), 6 * i) == i,
    decreases i,
{
    if i > 0 {
        lemma_events_tally(bounds, i - 1, d, left);
        let prev = events_of(bounds, i - 1);
        let s = six(bounds[i - 1], (i - 1) as usize);
        let f = is_end(d, left);
        lemma_tally_concat(prev, s, f, 6);
        assert(tally(s, f, 6) == 1) by {
            reveal_with_fuel(tally, 7);
        }
    }
}

/// In a sweep of `n` primitives, each axis has `n` lower ends and `n` upper
/// ends: before the sweep has taken in any candidate, all `n` primitives are
/// on the right of every plane, and none is on the left.
pub proof fn lemma_sweep_counts(cs: Seq<Candidate>, bounds: Seq<Aabb>, d: int)
    requires
        is_sweep_of(cs, bounds),
        0 <= d < 3,
    ensures
        cs.len() == 6 * bounds.len(),
        lefts(cs, d, cs.len() as int) == bounds.len(),
        rights(cs, d, cs.len() as int) == bounds.len(),
{
    let n = bounds.len() as int;
    let ev = events_of(bounds, n);
    lemma_events_tally(bounds, n, d, true);
    lemma_events_tally(bounds, n, d, false);
    lemma_tally_permuted(cs, ev, is_end(d, true));
    lemma_tally_permuted(cs, ev, is_end(d, false));
    lemma_counts_are_tallies(cs, d, cs.len() as int);
}

} // verus!
