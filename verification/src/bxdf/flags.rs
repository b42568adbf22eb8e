//! The kinds of a scattering lobe, as a set of flags.
//!
//! A lobe reflects or transmits, and it is diffuse, glossy or specular. A
//! request for lobes names the flags it admits; a lobe matches where all its
//! own flags are admitted.
use vstd::prelude::*;

verus! {

/// The bit of the flag that marks a set as deliberately empty.
pub const NONE: u8 = 1;

/// The bit of the flag for lobes that reflect.
pub const REFLECTION: u8 = 2;

/// The bit of the flag for lobes that transmit.
pub const TRANSMISSION: u8 = 4;

/// The bit of the flag for diffuse lobes.
pub const DIFFUSE: u8 = 8;

/// The bit of the flag for glossy lobes.
pub const GLOSSY: u8 = 16;

/// The bit of the flag for specular lobes.
pub const SPECULAR: u8 = 32;

/// The bits of reflection and transmission of every kind.
pub const ALL: u8 = 62;

/// The bits of all the flags there are.
pub const KNOWN_BITS: u8 = 63;

/// Two to the power of `k`, and 1 for a negative `k`.
pub open spec fn pow2(k: int) -> int
    decreases k,
{
    if k <= 0 {
        1
    } else {
        2 * pow2(k - 1)
    }
}

/// A set of lobe flags.
#[derive(Clone, Copy, Debug, PartialEq, Eq, Structural)]
pub struct Type {
    pub bits: u8,
}

impl Type {
    /// Whether flag number `k` is set: 0 is `NONE`, 1 `REFLECTION`, 2
    /// `TRANSMISSION`, 3 `DIFFUSE`, 4 `GLOSSY`, 5 `SPECULAR`.
    pub open spec fn has(self, k: int) -> bool {
        (self.bits as int / pow2(k)) % 2 == 1
    }

    /// Whether every flag of `other` is set in `self`.
    pub open spec fn contains_spec(self, other: Type) -> bool {
        self.bits & other.bits == other.bits
    }

    /// Whether every flag of `self` is set in `other`.
    pub open spec fn within(self, other: Type) -> bool {
        self.bits & other.bits == self.bits
    }

    /// The flags set in both.
    pub open spec fn intersection_spec(self, other: Type) -> Type {
        Type { bits: self.bits & other.bits }
    }

    /// The flags set in either.
    pub open spec fn union_spec(self, other: Type) -> Type {
        Type { bits: self.bits | other.bits }
    }

    /// The flags of `self` that are not set in `other`.
    pub open spec fn difference_spec(self, other: Type) -> Type {
        Type { bits: self.bits & !other.bits }
    }

    /// The flags that are not set, of those there are.
    pub open spec fn complement_spec(self) -> Type {
        Type { bits: !self.bits & KNOWN_BITS }
    }

    /// The set that is marked as deliberately empty.
    pub fn none() -> (t: Type)
        ensures
            t.bits == NONE,
    {
        Type { bits: NONE }
    }

    /// The set of just the reflection flag.
    pub fn reflection() -> (t: Type)
        ensures
            t.bits == REFLECTION,
    {
        Type { bits: REFLECTION }
    }

    /// The set of just the transmission flag.
    pub fn transmission() -> (t: Type)
        ensures
            t.bits == TRANSMISSION,
    {
        Type { bits: TRANSMISSION }
    }

    /// The set of just the diffuse flag.
    pub fn diffuse() -> (t: Type)
        ensures
            t.bits == DIFFUSE,
    {
        Type { bits: DIFFUSE }
    }

    /// The set of just the glossy flag.
    pub fn glossy() -> (t: Type)
        ensures
            t.bits == GLOSSY,
    {
        Type { bits: GLOSSY }
    }

    /// The set of just the specular flag.
    pub fn specular() -> (t: Type)
        ensures
            t.bits == SPECULAR,
    {
        Type { bits: SPECULAR }
    }

    /// Reflection and transmission of every kind: what a request admits that
    /// admits every lobe.
    pub fn all() -> (t: Type)
        ensures
            t.bits == ALL,
            forall|k: int| 1 <= k <= 5 ==> t.has(k),
            !t.has(0),
    {
        let t = Type { bits: ALL };
        proof {
            reveal_with_fuel(pow2, 6);
            assert(pow2(0) == 1 && pow2(1) == 2 && pow2(2) == 4 && pow2(3) == 8 && pow2(4) == 16
                && pow2(5) == 32);
            assert(t.bits == 62);
            assert(t.has(1) && t.has(2) && t.has(3) && t.has(4) && t.has(5) && !t.has(0));
            assert forall|k: int| 1 <= k <= 5 implies t.has(k) by {
                if k == 1 {
                } else if k == 2 {
                } else if k == 3 {
                } else if k == 4 {
                } else {
                }
            }
        }
        t
    }

    /// The raw bits.
    pub fn bits(&self) -> (b: u8)
        ensures
            b == self.bits,
    {
        self.bits
    }

    /// The set with exactly these bits, or `None` where a bit stands for no
    /// flag.
    pub fn from_bits(bits: u8) -> (t: Option<Type>)
        ensures
            t is Some <==> bits <= KNOWN_BITS,
            t matches Some(s) ==> s.bits == bits,
    {
        if bits <= KNOWN_BITS {
            Some(Type { bits })
        } else {
            None
        }
    }

    /// The set with these bits, without those that stand for no flag.
    pub fn from_bits_truncate(bits: u8) -> (t: Type)
        ensures
            t.bits == bits & KNOWN_BITS,
            t.bits <= KNOWN_BITS,
    {
        assert(bits & 63 <= 63) by (bit_vector);
        Type { bits: bits & KNOWN_BITS }
    }

    /// No flag at all.
    pub fn empty() -> (t: Type)
        ensures
            t.bits == 0,
    {
        Type { bits: 0 }
    }

    /// Whether no flag is set.
    pub fn is_empty(&self) -> (r: bool)
        ensures
            r == (self.bits == 0),
    {
        self.bits == 0
    }

    /// Whether every flag of `other` is set in `self`.
    pub fn contains(&self, other: Type) -> (r: bool)
        ensures
            r == self.contains_spec(other),
    {
        self.bits & other.bits == other.bits
    }

    /// Whether some flag is set in both.
    pub fn intersects(&self, other: Type) -> (r: bool)
        ensures
            r == (self.bits & other.bits != 0),
    {
        self.bits & other.bits != 0
    }

    /// The flags set in both.
    pub fn intersection(self, other: Type) -> (t: Type)
        ensures
            t == self.intersection_spec(other),
    {
        Type { bits: self.bits & other.bits }
    }

    /// The flags set in either.
    pub fn union(self, other: Type) -> (t: Type)
        ensures
            t == self.union_spec(other),
    {
        Type { bits: self.bits | other.bits }
    }

    /// The flags of `self` that are not set in `other`.
    pub fn difference(self, other: Type) -> (t: Type)
        ensures
            t == self.difference_spec(other),
    {
        Type { bits: self.bits & !other.bits }
    }

    /// The flags that are not set, of those there are.
    pub fn complement(self) -> (t: Type)
        ensures
            t == self.complement_spec(),
    {
        Type { bits: !self.bits & KNOWN_BITS }
    }

    /// Whether this type is reflective.
    pub fn is_reflection(&self) -> (r: bool)
        ensures
            r == self.has(1),
            r == self.contains_spec(Type { bits: REFLECTION }),
    {
        let b = self.bits;
        assert((b & 2 == 2) == ((b / 2) % 2 == 1)) by (bit_vector);
        proof {
            reveal_with_fuel(pow2, 6);
        }
        b & REFLECTION == REFLECTION
    }

    /// Whether this type is transmissive.
    pub fn is_transmission(&self) -> (r: bool)
        ensures
            r == self.has(2),
            r == self.contains_spec(Type { bits: TRANSMISSION }),
    {
        let b = self.bits;
        assert((b & 4 == 4) == ((b / 4) % 2 == 1)) by (bit_vector);
        proof {
            reveal_with_fuel(pow2, 6);
        }
        b & TRANSMISSION == TRANSMISSION
    }

    /// Whether this type is diffuse.
    pub fn is_diffuse(&self) -> (r: bool)
        ensures
            r == self.has(3),
            r == self.contains_spec(Type { bits: DIFFUSE }),
    {
        let b = self.bits;
        assert((b & 8 == 8) == ((b / 8) % 2 == 1)) by (bit_vector);
        proof {
            reveal_with_fuel(pow2, 6);
        }
        b & DIFFUSE == DIFFUSE
    }

    /// Whether this type is glossy.
    pub fn is_glossy(&self) -> (r: bool)
        ensures
            r == self.has(4),
            r == self.contains_spec(Type { bits: GLOSSY }),
    {
        let b = self.bits;
        assert((b & 16 == 16) == ((b / 16) % 2 == 1)) by (bit_vector);
        proof {
            reveal_with_fuel(pow2, 6);
        }
        b & GLOSSY == GLOSSY
    }

    /// Whether this type is specular.
    pub fn is_specular(&self) -> (r: bool)
        ensures
            r == self.has(5),
            r == self.contains_spec(Type { bits: SPECULAR }),
    {
        let b = self.bits;
        assert((b & 32 == 32) == ((b / 32) % 2 == 1)) by (bit_vector);
        proof {
            reveal_with_fuel(pow2, 6);
        }
        b & SPECULAR == SPECULAR
    }

    /// The lobes that a pair of directions can go through: with both
    /// directions on one side of the surface no transmission, with the
    /// directions on opposite sides no reflection.
    pub open spec fn for_hemispheres_spec(self, same_hemisphere: bool) -> Type {
        if same_hemisphere {
            Type { bits: self.bits & !TRANSMISSION }
        } else {
            Type { bits: self.bits & !REFLECTION }
        }
    }

    /// Takes out of a request the lobes that a pair of directions cannot go
    /// through.
    pub fn for_hemispheres(self, same_hemisphere: bool) -> (t: Type)
        ensures
            t == self.for_hemispheres_spec(same_hemisphere),
            same_hemisphere ==> !t.has(2) && t.has(1) == self.has(1),
            !same_hemisphere ==> !t.has(1) && t.has(2) == self.has(2),
            forall|k: int| 3 <= k <= 5 ==> t.has(k) == self.has(k),
            t.has(0) == self.has(0),
    {
        let b = self.bits;
        proof {
            reveal_with_fuel(pow2, 6);
            assert(pow2(0) == 1);
            let t: u8 = b & !4u8;
            let r: u8 = b & !2u8;
            assert((t / 4) % 2 == 0 && (t / 2) % 2 == (b / 2) % 2 && t % 2 == b % 2 && (t / 8) % 2
                == (b / 8) % 2 && (t / 16) % 2 == (b / 16) % 2 && (t / 32) % 2 == (b / 32) % 2)
                by (bit_vector)
                requires
                    t == b & !4u8,
            ;
            assert((r / 2) % 2 == 0 && (r / 4) % 2 == (b / 4) % 2 && r % 2 == b % 2 && (r / 8) % 2
                == (b / 8) % 2 && (r / 16) % 2 == (b / 16) % 2 && (r / 32) % 2 == (b / 32) % 2)
                by (bit_vector)
                requires
                    r == b & !2u8,
            ;
        }
        let t = if same_hemisphere {
            Type { bits: b & !TRANSMISSION }
        } else {
            Type { bits: b & !REFLECTION }
        };
        proof {
            assert(t.has(0) == self.has(0));
            assert(t.has(3) == self.has(3) && t.has(4) == self.has(4) && t.has(5) == self.has(5));
            assert forall|k: int| 3 <= k <= 5 implies t.has(k) == self.has(k) by {
                if k == 3 {
                } else if k == 4 {
                } else {
                }
            }
        }
        t
    }
}

/// A lobe matches a request exactly where each of its flags is admitted.
pub proof fn lemma_within_by_flags(lobe: Type, request: Type)
    requires
        lobe.bits <= KNOWN_BITS,
    ensures
        lobe.within(request) <==> forall|k: int| 0 <= k <= 5 && lobe.has(k) ==> request.has(k),
{
    reveal_with_fuel(pow2, 6);
    let a = lobe.bits;
    let b = request.bits;
    assert(a <= 63 ==> ((a & b == a) <==> ((a % 2 == 1 ==> b % 2 == 1) && ((a / 2) % 2 == 1 ==> (b
        / 2) % 2 == 1) && ((a / 4) % 2 == 1 ==> (b / 4) % 2 == 1) && ((a / 8) % 2 == 1 ==> (b / 8)
        % 2 == 1) && ((a / 16) % 2 == 1 ==> (b / 16) % 2 == 1) && ((a / 32) % 2 == 1 ==> (b / 32)
        % 2 == 1)))) by (bit_vector);
    if lobe.within(request) {
        assert forall|k: int| 0 <= k <= 5 && lobe.has(k) implies request.has(k) by {
            if k == 0 {
            } else if k == 1 {
            } else if k == 2 {
            } else if k == 3 {
            } else if k == 4 {
            } else {
            }
        }
    }
    if forall|k: int| 0 <= k <= 5 && lobe.has(k) ==> request.has(k) {
        assert(lobe.has(0) ==> request.has(0));
        assert(lobe.has(1) ==> request.has(1));
        assert(lobe.has(2) ==> request.has(2));
        assert(lobe.has(3) ==> request.has(3));
        assert(lobe.has(4) ==> request.has(4));
        assert(lobe.has(5) ==> request.has(5));
    }
}

/// Allows indicating whether an intersection was found along a path starting
/// from a camera or one starting from a light source.
#[derive(Clone, Copy, Debug, PartialEq, Eq, Structural)]
pub enum TransportMode {
    Radiance,
    Importance,
}

} // verus!
