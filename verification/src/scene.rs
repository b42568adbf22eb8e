//! The scene: the objects, the lights among them, and the nearest hit of a
//! ray.
//!
//! Objects live in one list and are known by their index. An emitter is an
//! object like any other and is listed once more, by its index, among the
//! lights.
use vstd::prelude::*;
use crate::aabb::{Aabb, Boundable};
use crate::geometry::{Geometry, Intersectable, Intersection, Ray};

verus! {

/// An object of the scene: it receives light, and an emitter sends light out
/// as well.
pub enum SceneObject<T> {
    Emitter(T),
    Receiver(T),
}

impl<T> SceneObject<T> {
    /// The object without its role.
    pub open spec fn inner(self) -> T {
        match self {
            SceneObject::Emitter(e) => e,
            SceneObject::Receiver(r) => r,
        }
    }

    /// Whether the object sends light out.
    pub fn is_emitter(&self) -> (r: bool)
        ensures
            r == (*self is Emitter),
    {
        match self {
            SceneObject::Emitter(_) => true,
            SceneObject::Receiver(_) => false,
        }
    }

    /// The object without its role.
    pub fn get(&self) -> (r: &T)
        ensures
            *r == self.inner(),
    {
        match self {
            SceneObject::Emitter(e) => e,
            SceneObject::Receiver(r) => r,
        }
    }
}

impl<T: Boundable> Boundable for SceneObject<T> {
    open spec fn bounds_spec(&self) -> Aabb {
        self.inner().bounds_spec()
    }

    fn bounds(&self) -> (b: Aabb) {
        match self {
            SceneObject::Emitter(e) => e.bounds(),
            SceneObject::Receiver(r) => r.bounds(),
        }
    }
}

impl<T: Intersectable> Intersectable for SceneObject<T> {
    open spec fn hit(&self, ray: Ray) -> Option<Intersection> {
        self.inner().hit(ray)
    }

    fn intersect(&self, ray: &Ray) -> (r: Option<Intersection>) {
        match self {
            SceneObject::Emitter(e) => e.intersect(ray),
            SceneObject::Receiver(r) => r.intersect(ray),
        }
    }

    fn intersects(&self, ray: &Ray) -> (b: bool) {
        match self {
            SceneObject::Emitter(e) => e.intersects(ray),
            SceneObject::Receiver(r) => r.intersects(ray),
        }
    }
}

/// A hit, together with the object that was hit.
#[derive(Clone, Copy, Debug)]
pub struct SceneIntersection {
    pub info: Intersection,
    /// The index of the object in the scene.
    pub object: usize,
}

impl SceneIntersection {
    /// Creates a new scene intersection from the hit and the index of the
    /// object that was hit.
    pub fn new(intersection: Intersection, object: usize) -> (s: SceneIntersection)
        ensures
            s.info == intersection,
            s.object == object,
    {
        SceneIntersection { info: intersection, object }
    }
}

/// The indices of the emitters among the first `i` objects, in their order.
pub open spec fn emitters<T>(objects: Seq<SceneObject<T>>, i: int) -> Seq<usize>
    decreases i,
{
    if i <= 0 {
        Seq::empty()
    } else if objects[i - 1] is Emitter {
        emitters(objects, i - 1).push((i - 1) as usize)
    } else {
        emitters(objects, i - 1)
    }
}

/// The smallest box around the first `i` objects.
pub open spec fn world<T: Boundable>(objects: Seq<SceneObject<T>>, i: int) -> Aabb
    decreases i,
{
    if i <= 0 {
        Aabb::empty_spec()
    } else {
        world(objects, i - 1).join_spec(objects[i - 1].bounds_spec())
    }
}

/// The ray as the search has it once `found` is the nearest hit so far: cut
/// off at that hit.
pub open spec fn shortened(ray: Ray, found: Option<SceneIntersection>) -> Ray {
    match found {
        Some(s) => ray.until(s.info.t),
        None => ray,
    }
}

/// The hit that the search holds after the first `i` objects: each object in
/// turn is asked about the ray, cut off at the hit found so far, and where it
/// is hit, its hit is the new one.
pub open spec fn nearest<T: Intersectable>(objects: Seq<SceneObject<T>>, ray: Ray, i: int) -> Option<
    SceneIntersection,
>
    decreases i,
{
    if i <= 0 {
        None
    } else {
        let found = nearest(objects, ray, i - 1);
        match objects[i - 1].hit(shortened(ray, found)) {
            Some(h) => Some(SceneIntersection { info: h, object: (i - 1) as usize }),
            None => found,
        }
    }
}

/// Whether some one of the first `i` objects is hit by the ray.
pub open spec fn any_hit<T: Intersectable>(objects: Seq<SceneObject<T>>, ray: Ray, i: int) -> bool {
    exists|k: int| 0 <= k < i && (#[trigger] objects[k]).hit(ray) is Some
}

/// A scene consists of scene objects and lights.
pub struct Scene<T: Geometry> {
    /// The box around all the objects.
    pub aabb: Aabb,
    /// The indices of the emitters.
    pub lights: Vec<usize>,
    pub objects: Vec<SceneObject<T>>,
}

impl<T: Geometry> Scene<T> {
    /// Whether the lights are the emitters among the objects and the box is
    /// the box around the objects.
    pub open spec fn wf(&self) -> bool {
        &&& self.lights@ == emitters(self.objects@, self.objects@.len() as int)
        &&& self.aabb == world(self.objects@, self.objects@.len() as int)
    }

    /// The scene without objects.
    pub fn new() -> (s: Self)
        ensures
            s.wf(),
            s.objects@.len() == 0,
            s.lights@.len() == 0,
            s.aabb == Aabb::empty_spec(),
    {
        Scene { aabb: Aabb::empty(), lights: Vec::new(), objects: Vec::new() }
    }

    /// Adds the given object to the scene. If the object is an emitter, it
    /// is also added to the lights.
    pub fn add(&mut self, obj: SceneObject<T>)
        requires
            old(self).wf(),
        ensures
            final(self).wf(),
            final(self).objects@ == old(self).objects@.push(obj),
            obj is Emitter ==> final(self).lights@ == old(self).lights@.push(
                old(self).objects@.len() as usize,
            ),
            obj is Receiver ==> final(self).lights@ == old(self).lights@,
            final(self).aabb == old(self).aabb.join_spec(obj.bounds_spec()),
    {
        let ghost before = self.objects@;
        let index = self.objects.len();
        let emits = obj.is_emitter();
        let bounds = obj.bounds();
        self.objects.push(obj);
        if emits {
            self.lights.push(index);
        }
        self.aabb = self.aabb.join(&bounds);
        proof {
            let after = self.objects@;
            lemma_pushed(before, obj, before.len() as int);
        }
    }

    /// The number of objects.
    pub fn len(&self) -> (n: usize)
        ensures
            n == self.objects@.len(),
    {
        self.objects.len()
    }

    /// Intersects the scene with the given ray: the nearest hit, with the
    /// object that was hit.
    pub fn intersect(&self, ray: &Ray) -> (r: Option<SceneIntersection>)
        ensures
            r == nearest(self.objects@, *ray, self.objects@.len() as int),
            r is Some <==> any_hit(self.objects@, *ray, self.objects@.len() as int),
            r matches Some(s) ==> s.object < self.objects@.len() && ray.contains_spec(s.info.t),
    {
        let mut new_ray = *ray;
        let mut intersection: Option<SceneIntersection> = None;
        let mut i: usize = 0;
        while i < self.objects.len()
            invariant
                i <= self.objects@.len(),
                intersection == nearest(self.objects@, *ray, i as int),
                new_ray == shortened(*ray, intersection),
                intersection matches Some(s) ==> s.object < i && ray.contains_spec(s.info.t),
            decreases self.objects@.len() - i,
        {
            if let Some(h) = self.objects[i].intersect(&new_ray) {
                new_ray.t_end = h.t;
                intersection = Some(SceneIntersection::new(h, i));
            }
            i += 1;
        }
        proof {
            lemma_found_iff_hit(self.objects@, *ray, self.objects@.len() as int);
        }
        intersection
    }

    /// Whether anything lies on the stretch of the ray that counts.
    pub fn is_occluded(&self, ray: &Ray) -> (r: bool)
        ensures
            r == any_hit(self.objects@, *ray, self.objects@.len() as int),
    {
        let mut i: usize = 0;
        while i < self.objects.len()
            invariant
                i <= self.objects@.len(),
                !any_hit(self.objects@, *ray, i as int),
            decreases self.objects@.len() - i,
        {
            if self.objects[i].intersects(ray) {
                return true;
            }
            i += 1;
        }
        false
    }

    /// Whether the ray intersects the scene.
    pub fn intersects(&self, ray: &Ray) -> (r: bool)
        ensures
            r == any_hit(self.objects@, *ray, self.objects@.len() as int),
            r == (nearest(self.objects@, *ray, self.objects@.len() as int) is Some),
    {
        proof {
            lemma_found_iff_hit(self.objects@, *ray, self.objects@.len() as int);
        }
        self.is_occluded(ray)
    }
}

/// A simple occlusion tester to test a ray against a scene: the stretch of the
/// ray between two points, a little short of both so that neither surface is
/// hit by its own ray.
#[derive(Clone, Copy, Debug)]
pub struct OcclusionTester {
    pub ray: Ray,
}

impl OcclusionTester {
    /// The tester for the given stretch of a ray.
    pub fn new(ray: Ray) -> (t: OcclusionTester)
        ensures
            t.ray == ray,
    {
        OcclusionTester { ray }
    }

    /// Tests the contained ray against the scene: whether anything is in
    /// the way.
    pub fn test<T: Geometry>(&self, scene: &Scene<T>) -> (r: bool)
        ensures
            r == any_hit(scene.objects@, self.ray, scene.objects@.len() as int),
    {
        scene.intersects(&self.ray)
    }

    /// Tests the contained ray against the scene, and returns what is in the
    /// way (if anything).
    pub fn test_get<T: Geometry>(&self, scene: &Scene<T>) -> (r: Option<SceneIntersection>)
        ensures
            r == nearest(scene.objects@, self.ray, scene.objects@.len() as int),
            r is Some <==> any_hit(scene.objects@, self.ray, scene.objects@.len() as int),
            r matches Some(s) ==> s.object < scene.objects@.len() && self.ray.contains_spec(
                s.info.t,
            ),
    {
        scene.intersect(&self.ray)
    }
}

/// What one more object adds to the lights and to the box.
pub proof fn lemma_pushed<T: Boundable>(objects: Seq<SceneObject<T>>, obj: SceneObject<T>, i: int)
    requires
        0 <= i <= objects.len(),
    ensures
        emitters(objects.push(obj), i) == emitters(objects, i),
        world(objects.push(obj), i) == world(objects, i),
    decreases i,
{
    if i > 0 {
        lemma_pushed(objects, obj, i - 1);
        assert(objects.push(obj)[i - 1] == objects[i - 1]);
    }
}

/// The search finds a hit exactly where some object is hit by the ray: to ask
/// whether the ray intersects the scene is to ask whether the search finds
/// anything.
pub proof fn lemma_found_iff_hit<T: Intersectable>(objects: Seq<SceneObject<T>>, ray: Ray, i: int)
    requires
        0 <= i <= objects.len(),
    ensures
        nearest(objects, ray, i) is Some <==> any_hit(objects, ray, i),
    decreases i,
{
    if i > 0 {
        lemma_found_iff_hit(objects, ray, i - 1);
        let found = nearest(objects, ray, i - 1);
        let o = objects[i - 1];
        if found is None {
            if o.hit(ray) is Some {
                assert(any_hit(objects, ray, i));
            } else {
                assert forall|k: int| 0 <= k < i implies !((#[trigger] objects[k]).hit(ray)
                    is Some) by {
                    if k < i - 1 {
                        assert(!any_hit(objects, ray, i - 1));
                    }
                }
            }
        } else {
            let k = choose|k: int| 0 <= k < i - 1 && (#[trigger] objects[k]).hit(ray) is Some;
            assert(objects[k].hit(ray) is Some);
            assert(any_hit(objects, ray, i));
        }
    }
}

/// Whether each of the first `i` objects keeps to what a primitive owes: a
/// hit lies on the stretch of the ray that was asked about.
pub open spec fn honest<T: Intersectable>(objects: Seq<SceneObject<T>>, i: int) -> bool {
    forall|k: int, r: Ray|
        0 <= k < i ==> ((#[trigger] objects[k].hit(r)) matches Some(h) ==> r.contains_spec(h.t))
}

/// With objects that keep to what a primitive owes, the hit that the search
/// finds lies on the ray, and no later than any hit it held before: the
/// search only ever comes nearer.
pub proof fn lemma_found_on_ray<T: Intersectable>(objects: Seq<SceneObject<T>>, ray: Ray, i: int)
    requires
        0 <= i <= objects.len(),
        honest(objects, i),
    ensures
        nearest(objects, ray, i) matches Some(s) ==> s.object < i && ray.contains_spec(s.info.t),
        forall|j: int|
            0 <= j <= i ==> (#[trigger] nearest(objects, ray, j) matches Some(earlier) ==> (nearest(
                objects,
                ray,
                i,
            ) matches Some(s) && s.info.t.le_spec(earlier.info.t))),
    decreases i,
{
    if i > 0 {
        lemma_found_on_ray(objects, ray, i - 1);
        let found = nearest(objects, ray, i - 1);
        let cur = shortened(ray, found);
        let o = objects[i - 1];
        let now = nearest(objects, ray, i);
        match o.hit(cur) {
            Some(h) => {
                assert(cur.contains_spec(h.t));
            },
            None => {},
        }
        assert forall|j: int| 0 <= j <= i implies (#[trigger] nearest(objects, ray, j) matches Some(
            earlier,
        ) ==> (now matches Some(s) && s.info.t.le_spec(earlier.info.t))) by {
            if j < i {
                if nearest(objects, ray, j) is Some {
                    assert(found is Some);
                }
            }
        }
    }
}

/// The search of a scene is the search among all its objects, one after the
/// other.
pub proof fn lemma_scene_search<T: Intersectable>(objects: Seq<SceneObject<T>>, ray: Ray, i: int)
    requires
        0 <= i <= objects.len(),
        objects.len() <= usize::MAX,
    ensures
        nearest(objects, ray, i) == crate::nearest::nearest_of(
            objects,
            crate::nearest::all_ids(objects.len() as int),
            ray,
            i,
        ),
    decreases i,
{
    if i > 0 {
        lemma_scene_search(objects, ray, i - 1);
        assert(crate::nearest::all_ids(objects.len() as int)[i - 1] == (i - 1) as usize);
    }
}

/// In a scene of steady objects, the hit that the scene finds is the nearest
/// hit of all: no object of the scene is hit nearer.
pub proof fn lemma_scene_nearest<T: Intersectable>(objects: Seq<SceneObject<T>>, ray: Ray)
    requires
        objects.len() <= usize::MAX,
        forall|k: int| 0 <= k < objects.len() ==> crate::nearest::steady(#[trigger] objects[k], ray),
    ensures
        nearest(objects, ray, objects.len() as int) matches Some(s) ==> {
            &&& s.object < objects.len()
            &&& objects[s.object as int].hit(ray) matches Some(h) && h.t == s.info.t
            &&& forall|k: int|
                0 <= k < objects.len() ==> ((#[trigger] objects[k]).hit(ray) matches Some(h)
                    ==> s.info.t.le_spec(h.t))
        },
{
    lemma_scene_search(objects, ray, objects.len() as int);
    crate::nearest::lemma_search_all(objects, ray);
}

} // verus!
