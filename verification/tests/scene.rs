use rust_v::aabb::{Aabb, Boundable, Point3};
use rust_v::geometry::{Intersectable, Intersection, Point, Ray, Vec3};
use rust_v::scalar::Scalar;
use rust_v::scene::{Scene, SceneObject};

fn s(x: f32) -> Scalar {
    Scalar::from_bits(x.to_bits())
}

fn f(x: Scalar) -> f32 {
    f32::from_bits(x.to_bits())
}

fn v(x: f32, y: f32, z: f32) -> Vec3 {
    Vec3::new(s(x), s(y), s(z))
}

/// A wall across the x axis: a ray along +x from the origin hits it at its
/// position.
#[derive(Clone, Copy)]
struct Wall {
    at: f32,
}

impl Boundable for Wall {
    fn bounds_spec(&self) -> Aabb {
        unreachable!()
    }

    fn bounds(&self) -> Aabb {
        let lo = self.at.floor() as i32;
        let hi = self.at.ceil() as i32;
        Aabb::new(Point3::new(lo, -100, -100), Point3::new(hi, 100, 100))
    }
}

impl Intersectable for Wall {
    fn hit(&self, _: Ray) -> Option<Intersection> {
        unreachable!()
    }

    fn intersect(&self, ray: &Ray) -> Option<Intersection> {
        let t = self.at - f(ray.origin.x);
        Intersection::checked(v(self.at, 0.0, 0.0), v(-1.0, 0.0, 0.0), s(t), *ray)
    }
}

fn ray_along_x() -> Ray {
    Ray::new_fast(v(0.0, 0.0, 0.0), v(1.0, 0.0, 0.0))
}

#[test]
fn nearest_wall_wins_whatever_the_order() {
    for order in [[3.0f32, 1.5, 7.0], [7.0, 3.0, 1.5], [1.5, 7.0, 3.0]] {
        let mut scene: Scene<Wall> = Scene::new();
        for at in order {
            scene.add(SceneObject::Receiver(Wall { at }));
        }
        let hit = scene.intersect(&ray_along_x()).unwrap();
        assert_eq!(f(hit.info.t), 1.5);
        assert_eq!(order[hit.object], 1.5);
    }
}

#[test]
fn intersects_agrees_with_intersect() {
    let mut scene: Scene<Wall> = Scene::new();
    scene.add(SceneObject::Receiver(Wall { at: 4.0 }));
    scene.add(SceneObject::Emitter(Wall { at: -2.0 }));
    let mut rays = vec![ray_along_x()];
    rays.push(Ray::new(v(0.0, 0.0, 0.0), v(1.0, 0.0, 0.0), s(0.0), s(3.0)));
    rays.push(Ray::new(v(0.0, 0.0, 0.0), v(1.0, 0.0, 0.0), s(5.0), s(9.0)));
    rays.push(Ray::new(v(-3.0, 0.0, 0.0), v(1.0, 0.0, 0.0), s(0.0), s(1.0)));
    rays.push(Ray::new(v(-3.0, 0.0, 0.0), v(1.0, 0.0, 0.0), s(0.0), s(f32::NAN)));
    let expected = [true, false, false, true, false];
    for (ray, want) in rays.iter().zip(expected) {
        assert_eq!(scene.intersects(ray), want);
        assert_eq!(scene.intersect(ray).is_some(), want);
        assert_eq!(scene.is_occluded(ray), want);
    }
}

#[test]
fn emitters_are_listed_as_lights() {
    let mut scene: Scene<Wall> = Scene::new();
    scene.add(SceneObject::Receiver(Wall { at: 1.0 }));
    scene.add(SceneObject::Emitter(Wall { at: 2.5 }));
    scene.add(SceneObject::Receiver(Wall { at: 3.0 }));
    scene.add(SceneObject::Emitter(Wall { at: -4.0 }));
    assert_eq!(scene.lights, vec![1, 3]);
    assert_eq!(scene.len(), 4);
    assert_eq!(scene.aabb, Aabb::new(Point3::new(-4, -100, -100), Point3::new(3, 100, 100)));
}

#[test]
fn a_point_is_never_hit() {
    let mut scene: Scene<Point> = Scene::new();
    scene.add(SceneObject::Emitter(Point(Point3::new(1, 0, 0))));
    assert!(!scene.intersects(&ray_along_x()));
    assert!(scene.intersect(&ray_along_x()).is_none());
    assert_eq!(scene.lights, vec![0]);
    assert_eq!(scene.aabb, Point(Point3::new(1, 0, 0)).bounds());
}
