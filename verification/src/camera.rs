//! Cameras: where the rays of an image come from.
use vstd::prelude::*;
use crate::geometry::{Ray, Vec3};
use crate::grid::UVec2;

verus! {

/// What makes the first ray of each pixel.
pub trait Camera {
    /// The size of the image in pixels, as a function of the camera.
    spec fn size(&self) -> UVec2;

    /// The size of the image in pixels.
    fn resolution(&self) -> (r: UVec2)
        ensures
            r == self.size(),
    ;

    /// Creates a new primary ray of the given pixel. The ray begins at or
    /// after its origin and does not end before it begins.
    fn primary_ray(&mut self, pixel: UVec2) -> (ray: Ray)
        ensures
            final(self).size() == old(self).size(),
            ray.t_start.key() >= 0,
            ray.t_start.le_spec(ray.t_end),
    ;
}

/// The camera that sees nothing: its image has no pixels, and the ray it
/// makes is the same whatever it is asked for, from the origin along the y
/// axis.
#[derive(Clone, Copy, Debug)]
pub struct NoOpCamera;

impl Camera for NoOpCamera {
    open spec fn size(&self) -> UVec2 {
        UVec2 { x: 0, y: 0 }
    }

    fn resolution(&self) -> (r: UVec2) {
        UVec2 { x: 0, y: 0 }
    }

    fn primary_ray(&mut self, pixel: UVec2) -> (ray: Ray)
        ensures
            ray.origin.x.bits == 0 && ray.origin.y.bits == 0 && ray.origin.z.bits == 0,
            ray.direction.x.bits == 0 && ray.direction.y.bits == crate::scalar::ONE_BITS
                && ray.direction.z.bits == 0,
            ray.t_start.bits == 0,
            ray.t_end.bits == crate::scalar::INFINITY_BITS,
    {
        Ray::new_fast(Vec3::zero(), Vec3::unit_y())
    }
}

} // verus!
