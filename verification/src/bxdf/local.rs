//! The shading frame of a surface.
//!
//! Lobes are evaluated in a frame of their own, in which the surface normal
//! is the y axis. What is here is exact on the numbers as they stand: signs
//! are looked at and flipped, nothing is added or multiplied.
use vstd::prelude::*;
use crate::geometry::Vec3;
use crate::scalar::{Scalar, ONE_BITS};

verus! {

/// The normal of the shading frame: the y axis.
pub fn bxdf_normal() -> (n: Vec3)
    ensures
        n.x.bits == 0 && n.y.bits == ONE_BITS && n.z.bits == 0,
{
    Vec3::unit_y()
}

/// What `v` is when it is seen coming in instead of going out: turned by half
/// a turn about the normal.
pub fn bxdf_incident_to(v: Vec3) -> (r: Vec3)
    ensures
        r == (Vec3 { x: v.x.neg_spec(), y: v.y, z: v.z.neg_spec() }),
{
    Vec3 { x: v.x.neg(), y: v.y, z: v.z.neg() }
}

/// Whether `v` points below the surface.
pub fn is_neg(v: Vec3) -> (r: bool)
    ensures
        r == (!v.y.nan() && v.y.key() < 0),
{
    v.y.lt(Scalar::zero())
}

/// `v` mirrored at the surface.
pub fn flip(v: Vec3) -> (r: Vec3)
    ensures
        r == (Vec3 { x: v.x, y: v.y.neg_spec(), z: v.z }),
{
    Vec3 { x: v.x, y: v.y.neg(), z: v.z }
}

/// `v`, mirrored at the surface where it points below it: the result points
/// above the surface or along it.
pub fn flip_if_neg(v: Vec3) -> (r: Vec3)
    ensures
        r == (if !v.y.nan() && v.y.key() < 0 {
            Vec3 { x: v.x, y: v.y.neg_spec(), z: v.z }
        } else {
            v
        }),
        !v.y.nan() ==> r.y.key() >= 0,
{
    if is_neg(v) {
        flip(v)
    } else {
        v
    }
}

/// Whether `v` lies in the surface.
pub fn bxdf_is_parallel(v: Vec3) -> (r: bool)
    ensures
        r == (!v.y.nan() && v.y.key() == 0),
{
    v.y.num_eq(Scalar::zero())
}

/// The cosine of the angle between `v` and the normal, for a `v` of length
/// one: its y component.
pub fn cos_theta(v: Vec3) -> (c: Scalar)
    ensures
        c == v.y,
{
    v.y
}

/// A turn in space, as a rotor: a scalar part and the three components of a
/// bivector.
#[derive(Clone, Copy, Debug)]
pub struct Rotor {
    pub s: Scalar,
    pub xy: Scalar,
    pub xz: Scalar,
    pub yz: Scalar,
}

impl Rotor {
    /// The turn back: the rotor with its bivector negated.
    pub open spec fn reversed_spec(self) -> Rotor {
        Rotor {
            s: self.s,
            xy: self.xy.neg_spec(),
            xz: self.xz.neg_spec(),
            yz: self.yz.neg_spec(),
        }
    }

    /// The turn back.
    pub fn reversed(&self) -> (r: Rotor)
        ensures
            r == self.reversed_spec(),
    {
        Rotor { s: self.s, xy: self.xy.neg(), xz: self.xz.neg(), yz: self.yz.neg() }
    }
}

/// How to get from world space into the shading frame: not at all, by a
/// flip, or by a turn.
#[derive(Clone, Copy, Debug)]
pub enum Rotation {
    Identity,
    Flip,
    Turn(Rotor),
}

/// Which way leads from a normal into the shading frame.
#[derive(Clone, Copy, Debug, PartialEq, Eq, Structural)]
pub enum RotationKind {
    /// The normal is the y axis already.
    Identity,
    /// The normal is the y axis the other way round.
    Flip,
    /// Any other normal: it takes a turn.
    Turn,
}

impl Rotation {
    /// The way back.
    pub open spec fn reversed_spec(self) -> Rotation {
        match self {
            Rotation::Turn(r) => Rotation::Turn(r.reversed_spec()),
            _ => self,
        }
    }

    /// What the rotation makes of `v`, where it takes no arithmetic: `v`
    /// itself, or `v` flipped. A turn takes arithmetic and is the caller's.
    pub open spec fn apply_spec(self, v: Vec3) -> Option<Vec3> {
        match self {
            Rotation::Identity => Some(v),
            Rotation::Flip => Some(Vec3 { x: v.x, y: v.y.neg_spec(), z: v.z }),
            Rotation::Turn(_) => None,
        }
    }

    /// Reverses the rotation (if any).
    pub fn reversed(&self) -> (r: Rotation)
        ensures
            r == self.reversed_spec(),
    {
        match self {
            Rotation::Turn(r) => Rotation::Turn(r.reversed()),
            Rotation::Identity => Rotation::Identity,
            Rotation::Flip => Rotation::Flip,
        }
    }

    /// Applies the rotation to `v` where that takes no arithmetic, and
    /// returns `None` for a turn.
    pub fn apply(&self, v: Vec3) -> (r: Option<Vec3>)
        ensures
            r == self.apply_spec(v),
    {
        match self {
            Rotation::Identity => Some(v),
            Rotation::Flip => Some(flip(v)),
            Rotation::Turn(_) => None,
        }
    }
}

/// Which way leads from the normal `v` into the shading frame, as a function
/// of the normal.
pub open spec fn kind_spec(v: Vec3) -> RotationKind {
    let up = Vec3 { x: Scalar { bits: 0 }, y: Scalar { bits: ONE_BITS }, z: Scalar { bits: 0 } };
    let down = Vec3 { x: up.x.neg_spec(), y: up.y.neg_spec(), z: up.z.neg_spec() };
    if v.eq_spec(up) {
        RotationKind::Identity
    } else if v.eq_spec(down) {
        RotationKind::Flip
    } else {
        RotationKind::Turn
    }
}

/// Which way leads from the normal `v` into the shading frame: none where
/// the normal is the y axis, a flip where it is the opposite, else a turn.
pub fn world_to_bxdf_kind(v: Vec3) -> (k: RotationKind)
    ensures
        k == kind_spec(v),
        k == RotationKind::Identity <==> v.x.eq_spec(Scalar { bits: 0 }) && v.y.bits == ONE_BITS
            && v.z.eq_spec(Scalar { bits: 0 }),
{
    let up = Vec3::unit_y();
    let down = up.neg();
    if v.num_eq(&up) {
        RotationKind::Identity
    } else if v.num_eq(&down) {
        RotationKind::Flip
    } else {
        RotationKind::Turn
    }
}

/// The negative of the negative is the number itself, bit for bit.
pub proof fn lemma_neg_neg(s: Scalar)
    ensures
        s.neg_spec().neg_spec() == s,
{
}

/// To go into the shading frame and back leaves a vector as it was, for the
/// two rotations that take no arithmetic.
pub proof fn lemma_round_trip(rotation: Rotation, v: Vec3)
    requires
        !(rotation is Turn),
    ensures
        rotation.apply_spec(v) is Some,
        rotation.reversed_spec().apply_spec(rotation.apply_spec(v).unwrap()) == Some(v),
{
    lemma_neg_neg(v.y);
}

/// The way back of the way back is the way itself.
pub proof fn lemma_reversed_twice(rotation: Rotation)
    ensures
        rotation.reversed_spec().reversed_spec() == rotation,
{
    match rotation {
        Rotation::Turn(r) => {
            lemma_neg_neg(r.xy);
            lemma_neg_neg(r.xz);
            lemma_neg_neg(r.yz);
        },
        _ => {},
    }
}

} // verus!
