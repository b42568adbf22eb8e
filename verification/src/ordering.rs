//! The three-way comparison of two numbers.
use std::cmp::Ordering;
use vstd::prelude::*;
use crate::scalar::Scalar;

verus! {

/// Compares two numbers: `Less` where `a < b`, `Greater` where `a > b`, and
/// `Equal` otherwise, which is also where either is not a number.
pub fn fast_cmp(a: Scalar, b: Scalar) -> (o: Ordering)
    ensures
        o == Ordering::Less <==> a.lt_spec(b),
        o == Ordering::Greater <==> b.lt_spec(a),
        o == Ordering::Equal <==> !a.lt_spec(b) && !b.lt_spec(a),
{
    if a.lt(b) {
        Ordering::Less
    } else if a.gt(b) {
        Ordering::Greater
    } else {
        Ordering::Equal
    }
}

} // verus!
