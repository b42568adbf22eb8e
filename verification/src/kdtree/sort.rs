//! Putting candidates into sweep order.
use vstd::prelude::*;
use vstd::seq_lib::{lemma_multiset_commutative, to_multiset_build};
use crate::kdtree::candidate::{Candidate, Candidates, sorted};

verus! {

/// The sweep order is a total order: any two candidates are in order one way
/// or the other, both ways only where they are one candidate, and what comes
/// before a candidate comes before all that comes after it.
pub proof fn lemma_order(a: Candidate, b: Candidate, c: Candidate)
    ensures
        a.before_eq(b) || b.before_eq(a),
        a.before_eq(b) && b.before_eq(c) ==> a.before_eq(c),
        a.before_eq(a),
        a.before_eq(b) && b.before_eq(a) ==> a == b,
{
}

/// Merges two sorted runs into one.
fn merge(a: &Candidates, b: &Candidates) -> (r: Candidates)
    requires
        sorted(a@),
        sorted(b@),
        a@.len() + b@.len() <= usize::MAX,
    ensures
        sorted(r@),
        r@.to_multiset() == a@.to_multiset().add(b@.to_multiset()),
        r@.len() == a@.len() + b@.len(),
{
    let mut r: Candidates = Vec::with_capacity(a.len() + b.len());
    let mut i: usize = 0;
    let mut j: usize = 0;
    proof {
        assert(a@.subrange(0, 0) =~= Seq::<Candidate>::empty());
        assert(b@.subrange(0, 0) =~= Seq::<Candidate>::empty());
        assert(r@ =~= Seq::<Candidate>::empty());
        let e = Seq::<Candidate>::empty();
        e.to_multiset_ensures();
        vstd::multiset::lemma_multiset_empty_len(e.to_multiset());
        assert(r@.to_multiset() =~= a@.subrange(0, 0).to_multiset().add(
            b@.subrange(0, 0).to_multiset(),
        ));
    }
    while i < a.len() || j < b.len()
        invariant
            i <= a@.len(),
            j <= b@.len(),
            a@.len() + b@.len() <= usize::MAX,
            r@.len() == i + j,
            sorted(a@),
            sorted(b@),
            sorted(r@),
            r@.to_multiset() == a@.subrange(0, i as int).to_multiset().add(
                b@.subrange(0, j as int).to_multiset(),
            ),
            forall|k: int| 0 <= k < r@.len() && i < a@.len() ==> (#[trigger] r@[k]).before_eq(a@[i as int]),
            forall|k: int| 0 <= k < r@.len() && j < b@.len() ==> (#[trigger] r@[k]).before_eq(b@[j as int]),
        decreases a@.len() + b@.len() - i - j,
    {
        let ghost before = r@;
        let take_a = if j >= b.len() {
            true
        } else if i >= a.len() {
            false
        } else {
            a[i].precedes(&b[j])
        };
        if take_a {
            let x = a[i];
            r.push(x);
            proof {
                to_multiset_build(before, x);
                to_multiset_build(a@.subrange(0, i as int), x);
                assert(a@.subrange(0, i as int + 1) =~= a@.subrange(0, i as int).push(x));
                assert(r@.to_multiset() =~= a@.subrange(0, i as int + 1).to_multiset().add(
                    b@.subrange(0, j as int).to_multiset(),
                ));
                assert forall|p: int, q: int| 0 <= p <= q < r@.len() implies (#[trigger] r@[p]).before_eq(
                    #[trigger] r@[q],
                ) by {
                    if q < before.len() {
                        assert(before[p].before_eq(before[q]));
                    } else if p < before.len() {
                        assert(before[p].before_eq(a@[i as int]));
                    }
                }
                assert forall|k: int| 0 <= k < r@.len() && i + 1 < a@.len() implies (#[trigger] r@[k]).before_eq(
                    a@[i as int + 1],
                ) by {
                    assert(a@[i as int].before_eq(a@[i as int + 1]));
                    if k < before.len() {
                        assert(before[k].before_eq(a@[i as int]));
                        lemma_order(before[k], a@[i as int], a@[i as int + 1]);
                    }
                }
                assert forall|k: int| 0 <= k < r@.len() && j < b@.len() implies (#[trigger] r@[k]).before_eq(
                    b@[j as int],
                ) by {
                    if k < before.len() {
                        assert(before[k].before_eq(b@[j as int]));
                    }
                }
            }
            i += 1;
        } else {
            let x = b[j];
            r.push(x);
            proof {
                to_multiset_build(before, x);
                to_multiset_build(b@.subrange(0, j as int), x);
                assert(b@.subrange(0, j as int + 1) =~= b@.subrange(0, j as int).push(x));
                assert(r@.to_multiset() =~= a@.subrange(0, i as int).to_multiset().add(
                    b@.subrange(0, j as int + 1).to_multiset(),
                ));
                if i < a@.len() {
                    lemma_order(a@[i as int], x, x);
                }
                assert forall|p: int, q: int| 0 <= p <= q < r@.len() implies (#[trigger] r@[p]).before_eq(
                    #[trigger] r@[q],
                ) by {
                    if q < before.len() {
                        assert(before[p].before_eq(before[q]));
                    } else if p < before.len() {
                        assert(before[p].before_eq(b@[j as int]));
                    }
                }
                assert forall|k: int| 0 <= k < r@.len() && j + 1 < b@.len() implies (#[trigger] r@[k]).before_eq(
                    b@[j as int + 1],
                ) by {
                    assert(b@[j as int].before_eq(b@[j as int + 1]));
                    if k < before.len() {
                        assert(before[k].before_eq(b@[j as int]));
                        lemma_order(before[k], b@[j as int], b@[j as int + 1]);
                    }
                }
                assert forall|k: int| 0 <= k < r@.len() && i < a@.len() implies (#[trigger] r@[k]).before_eq(
                    a@[i as int],
                ) by {
                    if k < before.len() {
                        assert(before[k].before_eq(a@[i as int]));
                    }
                }
            }
            j += 1;
        }
    }
    proof {
        assert(a@.subrange(0, a@.len() as int) =~= a@);
        assert(b@.subrange(0, b@.len() as int) =~= b@);
    }
    r
}

/// Sorts the candidates from `lo` up to, not including, `hi`.
fn sort_range(v: &Candidates, lo: usize, hi: usize) -> (r: Candidates)
    requires
        lo <= hi <= v@.len(),
    ensures
        sorted(r@),
        r@.to_multiset() == v@.subrange(lo as int, hi as int).to_multiset(),
        r@.len() == hi - lo,
    decreases hi - lo,
{
    if hi - lo <= 1 {
        let mut r: Candidates = Vec::new();
        if hi - lo == 1 {
            r.push(v[lo]);
        }
        proof {
            assert(r@ =~= v@.subrange(lo as int, hi as int));
        }
        r
    } else {
        let mid = lo + (hi - lo) / 2;
        let a = sort_range(v, lo, mid);
        let b = sort_range(v, mid, hi);
        proof {
            lemma_multiset_commutative(
                v@.subrange(lo as int, mid as int),
                v@.subrange(mid as int, hi as int),
            );
            assert(v@.subrange(lo as int, mid as int) + v@.subrange(mid as int, hi as int)
                =~= v@.subrange(lo as int, hi as int));
        }
        merge(&a, &b)
    }
}

/// The candidates in sweep order.
pub fn sort_candidates(v: &Candidates) -> (r: Candidates)
    ensures
        sorted(r@),
        r@.to_multiset() == v@.to_multiset(),
        r@.len() == v@.len(),
{
    proof {
        assert(v@.subrange(0, v@.len() as int) =~= v@);
    }
    sort_range(v, 0, v.len())
}

} // verus!
