//! Rays, hits, and what it takes to be a primitive.
//!
//! A primitive says how much space it takes and where a ray hits it. How it
//! finds the hit is its own business; what the library holds it to is stated
//! here: the hit lies on the part of the ray that was asked about.
use vstd::prelude::*;
use crate::aabb::{Aabb, Boundable, Point3};
use crate::scalar::Scalar;

verus! {

/// Three real components: a position or a direction.
#[derive(Clone, Copy, Debug)]
pub struct Vec3 {
    pub x: Scalar,
    pub y: Scalar,
    pub z: Scalar,
}

impl Vec3 {
    /// The vector with these components.
    pub fn new(x: Scalar, y: Scalar, z: Scalar) -> (v: Vec3)
        ensures
            v == (Vec3 { x, y, z }),
    {
        Vec3 { x, y, z }
    }

    /// The origin.
    pub fn zero() -> (v: Vec3)
        ensures
            v.x.bits == 0 && v.y.bits == 0 && v.z.bits == 0,
    {
        Vec3 { x: Scalar::zero(), y: Scalar::zero(), z: Scalar::zero() }
    }

    /// The unit vector along y, the normal of the shading frame.
    pub fn unit_y() -> (v: Vec3)
        ensures
            v.x.bits == 0 && v.y == (Scalar { bits: crate::scalar::ONE_BITS }) && v.z.bits == 0,
    {
        Vec3 { x: Scalar::zero(), y: Scalar::one(), z: Scalar::zero() }
    }

    /// Whether all three components are finite numbers.
    pub open spec fn finite(self) -> bool {
        self.x.finite() && self.y.finite() && self.z.finite()
    }

    /// Whether all three components are finite numbers.
    pub fn is_finite(&self) -> (r: bool)
        ensures
            r == self.finite(),
    {
        self.x.is_finite() && self.y.is_finite() && self.z.is_finite()
    }

    /// Whether the two are equal as vectors of numbers, component by
    /// component.
    pub open spec fn eq_spec(self, other: Vec3) -> bool {
        self.x.eq_spec(other.x) && self.y.eq_spec(other.y) && self.z.eq_spec(other.z)
    }

    /// Whether the two are equal as vectors of numbers.
    pub fn num_eq(&self, other: &Vec3) -> (r: bool)
        ensures
            r == self.eq_spec(*other),
    {
        self.x.num_eq(other.x) && self.y.num_eq(other.y) && self.z.num_eq(other.z)
    }

    /// The opposite vector.
    pub fn neg(&self) -> (v: Vec3)
        ensures
            v == (Vec3 { x: self.x.neg_spec(), y: self.y.neg_spec(), z: self.z.neg_spec() }),
    {
        Vec3 { x: self.x.neg(), y: self.y.neg(), z: self.z.neg() }
    }
}

/// A ray: an origin, a direction, and the stretch of the ray that counts,
/// both ends included.
#[derive(Clone, Copy, Debug)]
pub struct Ray {
    pub origin: Vec3,
    pub direction: Vec3,
    pub t_start: Scalar,
    pub t_end: Scalar,
}

impl Ray {
    /// Whether the parameter `t` lies on the stretch that counts.
    pub open spec fn contains_spec(self, t: Scalar) -> bool {
        self.t_start.le_spec(t) && t.le_spec(self.t_end)
    }

    /// The same ray, cut off at `t_end`.
    pub open spec fn until(self, t_end: Scalar) -> Ray {
        Ray { t_end, ..self }
    }

    /// The stretch of the ray from `origin` along `direction` between the two
    /// parameters.
    pub fn new(origin: Vec3, direction: Vec3, t_start: Scalar, t_end: Scalar) -> (r: Ray)
        ensures
            r == (Ray { origin, direction, t_start, t_end }),
    {
        Ray { origin, direction, t_start, t_end }
    }

    /// The ray from `origin` along `direction`, all of it: from 0 to
    /// infinity.
    pub fn new_fast(origin: Vec3, direction: Vec3) -> (r: Ray)
        ensures
            r.origin == origin,
            r.direction == direction,
            r.t_start.bits == 0,
            r.t_end.bits == crate::scalar::INFINITY_BITS,
            forall|t: Scalar| r.contains_spec(t) <==> !t.nan() && t.key() >= 0,
    {
        Ray { origin, direction, t_start: Scalar::zero(), t_end: Scalar::infinity() }
    }

    /// Whether the parameter `t` lies on the stretch that counts.
    pub fn contains(&self, t: Scalar) -> (r: bool)
        ensures
            r == self.contains_spec(t),
    {
        self.t_start.le(t) && t.le(self.t_end)
    }
}

/// Where a ray hits a surface.
#[derive(Clone, Copy, Debug)]
pub struct Intersection {
    /// The point of the hit.
    pub point: Vec3,
    /// The surface normal there. It points to the outside of the surface,
    /// also where the ray hits from inside.
    pub normal: Vec3,
    /// The ray parameter of the hit.
    pub t: Scalar,
    /// The ray that hit.
    pub ray: Ray,
}

impl Intersection {
    /// Whether the hit lies on the stretch of its ray that counts.
    pub open spec fn on_ray(self) -> bool {
        self.ray.contains_spec(self.t)
    }

    /// Creates a new intersection. The parameter has to lie on the ray.
    pub fn new(point: Vec3, normal: Vec3, t: Scalar, ray: Ray) -> (i: Intersection)
        requires
            ray.contains_spec(t),
        ensures
            i == (Intersection { point, normal, t, ray }),
            i.on_ray(),
    {
        Intersection { point, normal, t, ray }
    }

    /// Creates a new intersection, or none where the parameter does not lie
    /// on the ray.
    pub fn checked(point: Vec3, normal: Vec3, t: Scalar, ray: Ray) -> (i: Option<Intersection>)
        ensures
            i is Some <==> ray.contains_spec(t),
            i matches Some(h) ==> h == (Intersection { point, normal, t, ray }),
    {
        if ray.contains(t) {
            Some(Intersection::new(point, normal, t, ray))
        } else {
            None
        }
    }
}

/// What a ray can hit.
pub trait Intersectable {
    /// The hit of `ray` on this object, as a function of the two.
    spec fn hit(&self, ray: Ray) -> Option<Intersection>;

    /// Intersects the given ray with this object: the nearest hit on the
    /// stretch of the ray that counts, or `None`. The hit carries the ray.
    fn intersect(&self, ray: &Ray) -> (r: Option<Intersection>)
        ensures
            r == self.hit(*ray),
            r matches Some(i) ==> i.ray == *ray && ray.contains_spec(i.t),
    ;

    /// Checks whether the given ray intersects with this object.
    fn intersects(&self, ray: &Ray) -> (b: bool)
        ensures
            b == (self.hit(*ray) is Some),
    {
        self.intersect(ray).is_some()
    }
}

/// What has bounds and can be hit: a primitive.
pub trait Geometry: Boundable + Intersectable {

}

impl<T: Boundable + Intersectable> Geometry for T {

}

/// A point in space. It has bounds, and no ray ever hits it.
#[derive(Clone, Copy, Debug)]
pub struct Point(pub Point3);

impl Boundable for Point {
    open spec fn bounds_spec(&self) -> Aabb {
        Aabb { min: self.0, max: self.0 }
    }

    fn bounds(&self) -> (b: Aabb) {
        Aabb::new(self.0, self.0)
    }
}

impl Intersectable for Point {
    open spec fn hit(&self, ray: Ray) -> Option<Intersection> {
        None
    }

    /// A point never intersects.
    fn intersect(&self, ray: &Ray) -> (r: Option<Intersection>) {
        None
    }

    /// A point never intersects.
    fn intersects(&self, ray: &Ray) -> (b: bool) {
        false
    }
}

} // verus!
