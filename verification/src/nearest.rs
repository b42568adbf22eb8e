//! The search for the nearest hit among a choice of objects.
//!
//! Each object in turn is asked about the ray, cut off at the nearest hit so
//! far. What comes of that is stated here, together with the reason why it
//! is the nearest hit of all: a primitive that answers for the stretch of a
//! ray it was asked about, and answers the same for a shorter stretch as
//! long as its hit lies on it.
use vstd::prelude::*;
use crate::geometry::{Intersectable, Ray};
use crate::scalar::Scalar;
use crate::scene::{SceneIntersection, shortened};

verus! {

/// The hit that the search holds after the first `i` of the objects named by
/// `ids`: each in turn is asked about the ray, cut off at the hit found so
/// far, and where it is hit, its hit is the new one.
pub open spec fn nearest_of<T: Intersectable>(
    objects: Seq<T>,
    ids: Seq<usize>,
    ray: Ray,
    i: int,
) -> Option<SceneIntersection>
    decreases i,
{
    if i <= 0 {
        None
    } else {
        let found = nearest_of(objects, ids, ray, i - 1);
        match objects[ids[i - 1] as int].hit(shortened(ray, found)) {
            Some(h) => Some(SceneIntersection { info: h, object: ids[i - 1] }),
            None => found,
        }
    }
}

/// Whether the object keeps to what a primitive owes on this ray and on
/// every shorter stretch of it: its hit lies on the stretch it was asked
/// about; on a shorter stretch it is hit where it is hit on the whole ray, as
/// long as that hit lies on the stretch; and it is not hit on a shorter
/// stretch where it is not hit on the whole ray.
pub open spec fn steady<T: Intersectable>(object: T, ray: Ray) -> bool {
    &&& object.hit(ray) matches Some(h) ==> ray.contains_spec(h.t)
    &&& forall|end: Scalar|
        end.le_spec(ray.t_end) ==> match #[trigger] object.hit(ray.until(end)) {
            Some(cut) => object.hit(ray) matches Some(h) && cut.t == h.t && cut.t.le_spec(end),
            None => object.hit(ray) matches Some(h) ==> !h.t.le_spec(end),
        }
}

/// Searches the objects named by `ids` for the nearest hit of the ray.
pub fn search<T: Intersectable>(objects: &Vec<T>, ids: &Vec<usize>, ray: &Ray) -> (r: Option<
    SceneIntersection,
>)
    requires
        forall|k: int| 0 <= k < ids@.len() ==> (#[trigger] ids@[k]) < objects@.len(),
    ensures
        r == nearest_of(objects@, ids@, *ray, ids@.len() as int),
        r matches Some(s) ==> s.object < objects@.len() && ray.contains_spec(s.info.t),
{
    let mut new_ray = *ray;
    let mut intersection: Option<SceneIntersection> = None;
    let mut i: usize = 0;
    while i < ids.len()
        invariant
            i <= ids@.len(),
            forall|k: int| 0 <= k < ids@.len() ==> (#[trigger] ids@[k]) < objects@.len(),
            intersection == nearest_of(objects@, ids@, *ray, i as int),
            new_ray == shortened(*ray, intersection),
            intersection matches Some(s) ==> s.object < objects@.len() && ray.contains_spec(
                s.info.t,
            ),
        decreases ids@.len() - i,
    {
        let id = ids[i];
        if let Some(h) = objects[id].intersect(&new_ray) {
            new_ray.t_end = h.t;
            intersection = Some(SceneIntersection::new(h, id));
        }
        i += 1;
    }
    intersection
}

/// With steady objects, the search finds the nearest hit of those it looks
/// at: it finds a hit exactly where one of them is hit by the ray, the hit
/// it finds is that of its object on the whole ray, and no object it looked
/// at is hit nearer.
pub proof fn lemma_search_is_nearest<T: Intersectable>(
    objects: Seq<T>,
    ids: Seq<usize>,
    ray: Ray,
    i: int,
)
    requires
        0 <= i <= ids.len(),
        forall|k: int| 0 <= k < i ==> (#[trigger] ids[k]) < objects.len(),
        forall|k: int| 0 <= k < i ==> steady(objects[(#[trigger] ids[k]) as int], ray),
    ensures
        nearest_of(objects, ids, ray, i) is Some <==> exists|k: int|
            0 <= k < i && objects[(#[trigger] ids[k]) as int].hit(ray) is Some,
        nearest_of(objects, ids, ray, i) matches Some(s) ==> {
            &&& ray.contains_spec(s.info.t)
            &&& exists|k: int| 0 <= k < i && (#[trigger] ids[k]) == s.object
            &&& objects[s.object as int].hit(ray) matches Some(h) && h.t == s.info.t
            &&& forall|k: int|
                0 <= k < i ==> (objects[(#[trigger] ids[k]) as int].hit(ray) matches Some(h)
                    ==> s.info.t.le_spec(h.t))
        },
    decreases i,
{
    if i > 0 {
        lemma_search_is_nearest(objects, ids, ray, i - 1);
        let found = nearest_of(objects, ids, ray, i - 1);
        let now = nearest_of(objects, ids, ray, i);
        let cur = shortened(ray, found);
        let id = ids[i - 1];
        let o = objects[id as int];
        assert(steady(o, ray));
        match found {
            None => {
                assert(cur == ray);
                match o.hit(ray) {
                    Some(h) => {
                        assert(ids[i - 1] == id);
                        assert(h.t.le_spec(h.t));
                        assert forall|k: int| 0 <= k < i implies (objects[(#[trigger] ids[k]) as int].hit(
                            ray,
                        ) matches Some(g) ==> h.t.le_spec(g.t)) by {
                            if k < i - 1 {
                                assert(!(objects[ids[k] as int].hit(ray) is Some));
                            }
                        }
                    },
                    None => {
                        assert forall|k: int| 0 <= k < i implies !(objects[(#[trigger] ids[k]) as int].hit(
                            ray,
                        ) is Some) by {
                            if k < i - 1 {
                                assert(!(objects[ids[k] as int].hit(ray) is Some));
                            }
                        }
                    },
                }
            },
            Some(s) => {
                let k0 = choose|k: int|
                    0 <= k < i - 1 && objects[(#[trigger] ids[k]) as int].hit(ray) is Some;
                assert(objects[ids[k0] as int].hit(ray) is Some);
                let w = choose|k: int| 0 <= k < i - 1 && (#[trigger] ids[k]) == s.object;
                assert(ids[w] == s.object);
                assert(s.info.t.le_spec(ray.t_end));
                assert(cur == ray.until(s.info.t));
                match o.hit(cur) {
                    Some(cut) => {
                        assert(ids[i - 1] == id);
                        let h = o.hit(ray)->0;
                        assert(cut.t == h.t && cut.t.le_spec(s.info.t));
                        assert forall|k: int| 0 <= k < i implies (objects[(#[trigger] ids[k]) as int].hit(
                            ray,
                        ) matches Some(g) ==> cut.t.le_spec(g.t)) by {
                            if k < i - 1 {
                                if objects[ids[k] as int].hit(ray) is Some {
                                    let g = objects[ids[k] as int].hit(ray)->0;
                                    assert(s.info.t.le_spec(g.t));
                                }
                            }
                        }
                    },
                    None => {
                        assert forall|k: int| 0 <= k < i implies (objects[(#[trigger] ids[k]) as int].hit(
                            ray,
                        ) matches Some(g) ==> s.info.t.le_spec(g.t)) by {
                            if k == i - 1 {
                                if o.hit(ray) is Some {
                                    let g = o.hit(ray)->0;
                                    assert(!g.t.le_spec(s.info.t));
                                    assert(ray.contains_spec(g.t));
                                }
                            }
                        }
                    },
                }
            },
        }
    }
}

/// The indices of `n` objects, in their order.
pub open spec fn all_ids(n: int) -> Seq<usize> {
    Seq::new(n as nat, |k: int| k as usize)
}

/// With steady objects, the search among all of them finds the nearest hit of
/// all: it finds a hit exactly where some object is hit, and no object is hit
/// nearer.
pub proof fn lemma_search_all<T: Intersectable>(objects: Seq<T>, ray: Ray)
    requires
        objects.len() <= usize::MAX,
        forall|k: int| 0 <= k < objects.len() ==> steady(#[trigger] objects[k], ray),
    ensures
        nearest_of(objects, all_ids(objects.len() as int), ray, objects.len() as int) is Some
            <==> exists|k: int| 0 <= k < objects.len() && (#[trigger] objects[k]).hit(ray) is Some,
        nearest_of(
            objects,
            all_ids(objects.len() as int),
            ray,
            objects.len() as int,
        ) matches Some(s) ==> {
            &&& s.object < objects.len()
            &&& objects[s.object as int].hit(ray) matches Some(h) && h.t == s.info.t
            &&& forall|k: int|
                0 <= k < objects.len() ==> ((#[trigger] objects[k]).hit(ray) matches Some(h)
                    ==> s.info.t.le_spec(h.t))
        },
{
    let n = objects.len() as int;
    let ids = all_ids(n);
    assert forall|k: int| 0 <= k < n implies (#[trigger] ids[k]) < objects.len() && steady(
        objects[ids[k] as int],
        ray,
    ) by {
        assert(ids[k] == k);
    }
    lemma_search_is_nearest(objects, ids, ray, n);
    let found = nearest_of(objects, ids, ray, n);
    if exists|k: int| 0 <= k < objects.len() && (#[trigger] objects[k]).hit(ray) is Some {
        let k = choose|k: int| 0 <= k < objects.len() && (#[trigger] objects[k]).hit(ray) is Some;
        assert(ids[k] == k);
        assert(objects[ids[k] as int].hit(ray) is Some);
    }
    if found is Some {
        let s = found->0;
        let j = choose|j: int| 0 <= j < n && objects[(#[trigger] ids[j]) as int].hit(ray) is Some;
        assert(ids[j] == j);
        assert(objects[j].hit(ray) is Some);
        let w = choose|w: int| 0 <= w < n && (#[trigger] ids[w]) == s.object;
        assert(ids[w] == w);
        assert forall|k: int| 0 <= k < objects.len() implies ((#[trigger] objects[k]).hit(
            ray,
        ) matches Some(h) ==> s.info.t.le_spec(h.t)) by {
            assert(ids[k] == k);
        }
    }
}

} // verus!
