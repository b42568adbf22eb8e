//! Real quantities as the library holds them.
//!
//! A [`Scalar`] is the 32-bit pattern of a binary32 number: one sign bit, eight
//! exponent bits, twenty-three fraction bits. The library never does arithmetic
//! on such a value; it compares, negates and stores it. All of that is decided
//! by the bits alone, and this module proves each comparison against the order
//! of the numbers that the patterns stand for.
//!
//! The order is the numeric one: both zeros are equal, and a pattern that is
//! not a number compares false with everything, itself included.
use vstd::prelude::*;

verus! {

/// The weight of the sign bit.
pub const SIGN_BIT: u32 = 0x8000_0000;

/// The magnitude of both infinities: every larger magnitude is not a number.
pub const INFINITY_BITS: u32 = 0x7f80_0000;

/// The pattern of the number one.
pub const ONE_BITS: u32 = 0x3f80_0000;

/// The pattern of ten machine epsilons, the tolerance of the `approx_zero` and
/// `lt_epsilon` tests.
pub const EPSILON_BITS: u32 = 0x35a0_0000;

/// The pattern of the coarse tolerance one ten-thousandth, by which ray
/// origins are pushed off a surface.
pub const BIG_EPSILON_BITS: u32 = 0x38d1_b717;

/// A real quantity, held as the bit pattern of a binary32 number.
#[derive(Clone, Copy, Debug)]
pub struct Scalar {
    pub bits: u32,
}

impl Scalar {
    /// The pattern without its sign bit.
    pub open spec fn magnitude(self) -> int {
        if self.bits >= SIGN_BIT {
            self.bits - SIGN_BIT
        } else {
            self.bits as int
        }
    }

    /// Whether the sign bit is set.
    pub open spec fn sign(self) -> bool {
        self.bits >= SIGN_BIT
    }

    /// Whether the pattern stands for no number.
    pub open spec fn nan(self) -> bool {
        self.magnitude() > INFINITY_BITS
    }

    /// Whether the pattern stands for a number that is not infinite.
    pub open spec fn finite(self) -> bool {
        self.magnitude() < INFINITY_BITS
    }

    /// The place of the number in the numeric order: patterns of numbers are
    /// ordered as their keys are, and both zeros have key 0. Meaningless for a
    /// pattern that is not a number.
    pub open spec fn key(self) -> int {
        if self.sign() {
            -self.magnitude()
        } else {
            self.magnitude()
        }
    }

    /// `self < other` as numbers.
    pub open spec fn lt_spec(self, other: Scalar) -> bool {
        !self.nan() && !other.nan() && self.key() < other.key()
    }

    /// `self <= other` as numbers.
    pub open spec fn le_spec(self, other: Scalar) -> bool {
        !self.nan() && !other.nan() && self.key() <= other.key()
    }

    /// `self == other` as numbers.
    pub open spec fn eq_spec(self, other: Scalar) -> bool {
        !self.nan() && !other.nan() && self.key() == other.key()
    }

    /// The pattern with its sign bit flipped.
    pub open spec fn neg_spec(self) -> Scalar {
        if self.bits >= SIGN_BIT {
            Scalar { bits: (self.bits - SIGN_BIT) as u32 }
        } else {
            Scalar { bits: (self.bits + SIGN_BIT) as u32 }
        }
    }

    /// The pattern with its sign bit cleared.
    pub open spec fn abs_spec(self) -> Scalar {
        Scalar { bits: self.magnitude() as u32 }
    }

    /// Wraps a bit pattern.
    pub fn from_bits(bits: u32) -> (s: Scalar)
        ensures
            s.bits == bits,
    {
        Scalar { bits }
    }

    /// The bit pattern.
    pub fn to_bits(self) -> (bits: u32)
        ensures
            bits == self.bits,
    {
        self.bits
    }

    /// Positive zero.
    pub fn zero() -> (s: Scalar)
        ensures
            s.bits == 0,
            s.key() == 0,
            s.finite(),
    {
        Scalar { bits: 0 }
    }

    /// The number one.
    pub fn one() -> (s: Scalar)
        ensures
            s.bits == ONE_BITS,
            s.finite(),
            !s.sign(),
    {
        Scalar { bits: ONE_BITS }
    }

    /// Positive infinity, above every number.
    pub fn infinity() -> (s: Scalar)
        ensures
            s.bits == INFINITY_BITS,
            !s.nan(),
            forall|t: Scalar| !t.nan() ==> t.le_spec(s),
    {
        Scalar { bits: INFINITY_BITS }
    }

    /// Negative infinity, below every number.
    pub fn neg_infinity() -> (s: Scalar)
        ensures
            s.bits == SIGN_BIT + INFINITY_BITS,
            !s.nan(),
            forall|t: Scalar| !t.nan() ==> s.le_spec(t),
    {
        Scalar { bits: SIGN_BIT + INFINITY_BITS }
    }

    fn mag(self) -> (m: u32)
        ensures
            m == self.magnitude(),
            m < SIGN_BIT,
    {
        if self.bits >= SIGN_BIT {
            self.bits - SIGN_BIT
        } else {
            self.bits
        }
    }

    fn ordered(self) -> (k: i64)
        ensures
            k == self.key(),
    {
        let m: i64 = self.mag() as i64;
        if self.bits >= SIGN_BIT {
            -m
        } else {
            m
        }
    }

    /// Whether the pattern stands for no number.
    pub fn is_nan(self) -> (r: bool)
        ensures
            r == self.nan(),
    {
        self.mag() > INFINITY_BITS
    }

    /// Whether the pattern stands for a number that is not infinite.
    pub fn is_finite(self) -> (r: bool)
        ensures
            r == self.finite(),
    {
        self.mag() < INFINITY_BITS
    }

    /// `self < other` as numbers; false when either is not a number.
    pub fn lt(self, other: Scalar) -> (r: bool)
        ensures
            r == self.lt_spec(other),
    {
        !self.is_nan() && !other.is_nan() && self.ordered() < other.ordered()
    }

    /// `self <= other` as numbers; false when either is not a number.
    pub fn le(self, other: Scalar) -> (r: bool)
        ensures
            r == self.le_spec(other),
    {
        !self.is_nan() && !other.is_nan() && self.ordered() <= other.ordered()
    }

    /// `self > other` as numbers; false when either is not a number.
    pub fn gt(self, other: Scalar) -> (r: bool)
        ensures
            r == other.lt_spec(self),
    {
        other.lt(self)
    }

    /// `self >= other` as numbers; false when either is not a number.
    pub fn ge(self, other: Scalar) -> (r: bool)
        ensures
            r == other.le_spec(self),
    {
        other.le(self)
    }

    /// `self == other` as numbers: the two zeros are equal, and what is not a
    /// number equals nothing.
    pub fn num_eq(self, other: Scalar) -> (r: bool)
        ensures
            r == self.eq_spec(other),
    {
        !self.is_nan() && !other.is_nan() && self.ordered() == other.ordered()
    }

    /// The number with the opposite sign.
    pub fn neg(self) -> (r: Scalar)
        ensures
            r == self.neg_spec(),
            r.magnitude() == self.magnitude(),
            r.sign() == !self.sign(),
            r.nan() == self.nan(),
            r.key() == -self.key(),
    {
        if self.bits >= SIGN_BIT {
            Scalar { bits: self.bits - SIGN_BIT }
        } else {
            Scalar { bits: self.bits + SIGN_BIT }
        }
    }

    /// The absolute value.
    pub fn abs(self) -> (r: Scalar)
        ensures
            r == self.abs_spec(),
            r.magnitude() == self.magnitude(),
            !r.sign(),
            r.nan() == self.nan(),
            r.key() == self.magnitude(),
    {
        Scalar { bits: self.mag() }
    }
}

/// Whether `f` lies in the open interval `(min, max)`.
pub fn in_range(f: Scalar, min: Scalar, max: Scalar) -> (r: bool)
    ensures
        r == (min.lt_spec(f) && f.lt_spec(max)),
{
    min.lt(f) && f.lt(max)
}

/// Whether `f` lies in the closed interval `[min, max]`.
pub fn in_range_incl(f: Scalar, min: Scalar, max: Scalar) -> (r: bool)
    ensures
        r == (min.le_spec(f) && f.le_spec(max)),
{
    min.le(f) && f.le(max)
}

/// Whether `f` lies in the half-open interval `[min, max)`.
pub fn in_range_incl_left(f: Scalar, min: Scalar, max: Scalar) -> (r: bool)
    ensures
        r == (min.le_spec(f) && f.lt_spec(max)),
{
    min.le(f) && f.lt(max)
}

/// Whether `f` lies in the half-open interval `(min, max]`.
pub fn in_range_incl_right(f: Scalar, min: Scalar, max: Scalar) -> (r: bool)
    ensures
        r == (min.lt_spec(f) && f.le_spec(max)),
{
    min.lt(f) && f.le(max)
}

/// Whether every entry of `ar` is a finite number.
pub fn is_finite(ar: &[Scalar]) -> (r: bool)
    ensures
        r == (forall|i: int| 0 <= i < ar@.len() ==> (#[trigger] ar@[i]).finite()),
{
    let mut i: usize = 0;
    while i < ar.len()
        invariant
            i <= ar@.len(),
            forall|j: int| 0 <= j < i ==> (#[trigger] ar@[j]).finite(),
        decreases ar@.len() - i,
    {
        if !ar[i].is_finite() {
            return false;
        }
        i += 1;
    }
    true
}

/// Whether every entry of `ar` is a number.
pub fn is_not_nan(ar: &[Scalar]) -> (r: bool)
    ensures
        r == (forall|i: int| 0 <= i < ar@.len() ==> !(#[trigger] ar@[i]).nan()),
{
    let mut i: usize = 0;
    while i < ar.len()
        invariant
            i <= ar@.len(),
            forall|j: int| 0 <= j < i ==> !(#[trigger] ar@[j]).nan(),
        decreases ar@.len() - i,
    {
        if ar[i].is_nan() {
            return false;
        }
        i += 1;
    }
    true
}

/// What [`fast_min`] returns: `b` where `b < a`, else `a`. So `a` comes back
/// whenever either argument is not a number.
pub open spec fn min_spec(a: Scalar, b: Scalar) -> Scalar {
    if b.lt_spec(a) {
        b
    } else {
        a
    }
}

/// What [`fast_max`] returns: `b` where `a < b`, else `a`.
pub open spec fn max_spec(a: Scalar, b: Scalar) -> Scalar {
    if a.lt_spec(b) {
        b
    } else {
        a
    }
}

/// What [`fast_clamp`] returns.
pub open spec fn clamp_spec(f: Scalar, min: Scalar, max: Scalar) -> Scalar {
    min_spec(max, max_spec(min, f))
}

/// The smaller of two numbers, the first on a tie.
pub fn fast_min(a: Scalar, b: Scalar) -> (r: Scalar)
    ensures
        r == min_spec(a, b),
{
    if b.lt(a) {
        b
    } else {
        a
    }
}

/// The larger of two numbers, the first on a tie.
pub fn fast_max(a: Scalar, b: Scalar) -> (r: Scalar)
    ensures
        r == max_spec(a, b),
{
    if a.lt(b) {
        b
    } else {
        a
    }
}

/// Whether `|value| <= zero_tolerance`.
pub fn approx_zero_tolerance(value: Scalar, zero_tolerance: Scalar) -> (r: bool)
    ensures
        r == value.abs_spec().le_spec(zero_tolerance),
{
    value.abs().le(zero_tolerance)
}

/// Whether `|value|` is at most ten machine epsilons.
pub fn approx_zero(value: Scalar) -> (r: bool)
    ensures
        r == value.abs_spec().le_spec(Scalar { bits: EPSILON_BITS }),
        r == (value.magnitude() <= EPSILON_BITS),
{
    approx_zero_tolerance(value, Scalar { bits: EPSILON_BITS })
}

/// Whether every entry of `ar` is within ten machine epsilons of zero.
pub fn approx_zero_ar(ar: &[Scalar]) -> (r: bool)
    ensures
        r == (forall|i: int| 0 <= i < ar@.len() ==> (#[trigger] ar@[i]).magnitude() <= EPSILON_BITS),
{
    let mut i: usize = 0;
    while i < ar.len()
        invariant
            i <= ar@.len(),
            forall|j: int| 0 <= j < i ==> (#[trigger] ar@[j]).magnitude() <= EPSILON_BITS,
        decreases ar@.len() - i,
    {
        if !approx_zero(ar[i]) {
            return false;
        }
        i += 1;
    }
    true
}

/// Whether `a < zero_tolerance`.
pub fn lt_epsilon_tolerance(a: Scalar, zero_tolerance: Scalar) -> (r: bool)
    ensures
        r == a.lt_spec(zero_tolerance),
{
    a.lt(zero_tolerance)
}

/// Whether `a` is below ten machine epsilons.
pub fn lt_epsilon(a: Scalar) -> (r: bool)
    ensures
        r == a.lt_spec(Scalar { bits: EPSILON_BITS }),
{
    lt_epsilon_tolerance(a, Scalar { bits: EPSILON_BITS })
}

/// `f` forced into `[min, max]`: `min` where `f` is below it, `max` where `f`
/// is above it.
pub fn fast_clamp(f: Scalar, min: Scalar, max: Scalar) -> (r: Scalar)
    ensures
        r == clamp_spec(f, min, max),
{
    fast_min(max, fast_max(min, f))
}

/// Forces every entry of `ar` into `[min, max]`.
pub fn fast_clamp_ar(ar: &mut Vec<Scalar>, min: Scalar, max: Scalar)
    ensures
        final(ar)@.len() == old(ar)@.len(),
        forall|i: int|
            0 <= i < old(ar)@.len() ==> #[trigger] final(ar)@[i] == clamp_spec(
                old(ar)@[i],
                min,
                max,
            ),
{
    let mut i: usize = 0;
    while i < ar.len()
        invariant
            i <= ar@.len(),
            ar@.len() == old(ar)@.len(),
            forall|j: int| 0 <= j < i ==> #[trigger] ar@[j] == clamp_spec(old(ar)@[j], min, max),
            forall|j: int| i <= j < ar@.len() ==> #[trigger] ar@[j] == old(ar)@[j],
        decreases ar@.len() - i,
    {
        let v = fast_clamp(ar[i], min, max);
        ar.set(i, v);
        i += 1;
    }
}

/// The clamp keeps a number within the bounds it was given: for numbers with
/// `min <= max`, the result lies in `[min, max]`, and it equals `f` where `f`
/// already did (as a number: a zero may come back with the other sign).
pub proof fn lemma_clamp_within(f: Scalar, min: Scalar, max: Scalar)
    requires
        !f.nan(),
        !min.nan(),
        !max.nan(),
        min.le_spec(max),
    ensures
        min.le_spec(clamp_spec(f, min, max)),
        clamp_spec(f, min, max).le_spec(max),
        min.le_spec(f) && f.le_spec(max) ==> clamp_spec(f, min, max).eq_spec(f),
{
}

} // verus!
