use rust_v::aabb::{Aabb, Boundable, Point3};
use rust_v::geometry::{Intersectable, Intersection, Ray, Vec3};
use rust_v::nearest::search;
use rust_v::scalar::Scalar;
use rust_v::kdtree::cost::{cost, Cost};
use rust_v::kdtree::node::Node;
use rust_v::kdtree::plane::Plane;
use rust_v::kdtree::tree::KdTree;

fn cube(x: i32, y: i32, z: i32, side: i32) -> Aabb {
    Aabb::new(Point3::new(x, y, z), Point3::new(x + side, y + side, z + side))
}

fn overlaps(a: &Aabb, b: &Aabb) -> bool {
    a.min.x <= b.max.x && b.min.x <= a.max.x && a.min.y <= b.max.y && b.min.y <= a.max.y
        && a.min.z <= b.max.z && b.min.z <= a.max.z
}

#[test]
fn single_primitive_is_a_single_leaf() {
    let bounds = vec![cube(0, 0, 0, 4)];
    let tree = KdTree::new(&bounds).unwrap();
    match &tree.root {
        Node::Leaf { items } => assert_eq!(items, &vec![0usize]),
        Node::Node { .. } => panic!("a single primitive must not be split"),
    }
    assert_eq!(tree.space, bounds[0]);
}

#[test]
fn empty_tree_is_an_empty_leaf() {
    let bounds: Vec<Aabb> = vec![];
    let tree = KdTree::new(&bounds).unwrap();
    match &tree.root {
        Node::Leaf { items } => assert!(items.is_empty()),
        Node::Node { .. } => panic!("nothing to split"),
    }
    let found = tree.intersect(&|_: &Aabb| true);
    assert!(found.is_empty());
}

#[test]
fn cost_of_a_centred_split() {
    // 10 x 10 x 10 split in the middle, 3 left and 5 right:
    // 5 * V * C = 5 * (15 * 1000 + 20 * (3 * 500 + 5 * 500)) = 475000.
    let v = cube(0, 0, 0, 10);
    assert_eq!(cost(&Plane::X(5), &v, 3, 5), Cost::Finite(475_000));
    // An empty side earns the bonus of 4/5: 4 * (15000 + 20 * 8 * 500).
    assert_eq!(cost(&Plane::X(5), &v, 0, 8), Cost::Finite(380_000));
    // A plane on a face leaves no volume on one side.
    assert_eq!(cost(&Plane::Y(0), &v, 0, 8), Cost::Infinite);
    assert_eq!(cost(&Plane::Z(10), &v, 8, 0), Cost::Infinite);
    assert_eq!(cost(&Plane::Z(99), &v, 8, 0), Cost::Infinite);
}

#[test]
fn walk_finds_what_brute_force_finds() {
    // A deterministic scatter of boxes.
    let mut state: u64 = 0x2545_f491_4f6c_dd1d;
    let mut next = move |m: u64| -> i32 {
        state ^= state << 13;
        state ^= state >> 7;
        state ^= state << 17;
        (state % m) as i32
    };
    let mut bounds = Vec::new();
    for _ in 0..2000 {
        let x = next(1000);
        let y = next(1000);
        let z = next(1000);
        bounds.push(cube(x, y, z, 1 + next(20)));
    }
    let tree = KdTree::new(&bounds).unwrap();
    assert!(matches!(tree.root, Node::Node { .. }));
    for q in 0..50 {
        let y = next(1000);
        let z = next(1000);
        // A beam along x.
        let beam = Aabb::new(Point3::new(-10, y, z), Point3::new(2000, y + q, z + q));
        let found = tree.intersect(&|space: &Aabb| overlaps(space, &beam));
        for (id, b) in bounds.iter().enumerate() {
            if overlaps(b, &beam) {
                assert!(found.contains(&id), "primitive {} was missed", id);
            }
        }
        assert!(found.len() < bounds.len());
    }
}

fn s(x: f32) -> Scalar {
    Scalar::from_bits(x.to_bits())
}

fn f(x: Scalar) -> f32 {
    f32::from_bits(x.to_bits())
}

/// A box that rays along +x hit on its near face.
#[derive(Clone, Copy)]
struct Brick {
    bounds: Aabb,
}

impl Boundable for Brick {
    fn bounds_spec(&self) -> Aabb {
        unreachable!()
    }

    fn bounds(&self) -> Aabb {
        self.bounds
    }
}

impl Intersectable for Brick {
    fn hit(&self, _: Ray) -> Option<Intersection> {
        unreachable!()
    }

    fn intersect(&self, ray: &Ray) -> Option<Intersection> {
        let y = f(ray.origin.y);
        let z = f(ray.origin.z);
        let b = &self.bounds;
        if y < b.min.y as f32 || y > b.max.y as f32 || z < b.min.z as f32 || z > b.max.z as f32 {
            return None;
        }
        let t = b.min.x as f32 - f(ray.origin.x);
        let point = Vec3::new(s(b.min.x as f32), ray.origin.y, ray.origin.z);
        let normal = Vec3::new(s(-1.0), s(0.0), s(0.0));
        Intersection::checked(point, normal, s(t), *ray)
    }
}

fn ray_from(y: f32, z: f32) -> Ray {
    Ray::new_fast(Vec3::new(s(-10.0), s(y), s(z)), Vec3::new(s(1.0), s(0.0), s(0.0)))
}

fn on_the_way(space: &Aabb, ray: &Ray) -> bool {
    let y = f(ray.origin.y);
    let z = f(ray.origin.z);
    space.min.y as f32 <= y
        && y <= space.max.y as f32
        && space.min.z as f32 <= z
        && z <= space.max.z as f32
        && space.max.x as f32 >= f(ray.origin.x)
}

fn scatter(count: usize, spread: u64, seed: u64) -> Vec<Brick> {
    let mut state = seed;
    let mut next = move |m: u64| -> i32 {
        state ^= state << 13;
        state ^= state >> 7;
        state ^= state << 17;
        (state % m) as i32
    };
    let mut bricks = Vec::new();
    for _ in 0..count {
        let x = next(spread);
        let y = next(spread);
        let z = next(spread);
        bricks.push(Brick { bounds: cube(x, y, z, 2) });
    }
    bricks
}

#[test]
fn the_tree_finds_the_nearest_hit_of_all() {
    let bricks = scatter(10_000, 100, 0x9e37_79b9_7f4a_7c15);
    let bounds: Vec<Aabb> = bricks.iter().map(|b| b.bounds()).collect();
    let all: Vec<usize> = (0..bricks.len()).collect();
    let tree = KdTree::new(&bounds).unwrap();
    assert_eq!(tree.len, 10_000);
    let mut hits = 0;
    for k in 0..40 {
        let ray = ray_from(2.5 * k as f32 + 0.25, 97.0 - 2.25 * k as f32);
        let by_tree = tree.nearest(&bricks, &ray, &|space: &Aabb| on_the_way(space, &ray));
        let by_all = search(&bricks, &all, &ray);
        assert_eq!(by_tree.is_some(), by_all.is_some());
        if let (Some(a), Some(b)) = (by_tree, by_all) {
            assert_eq!(f(a.info.t), f(b.info.t));
            hits += 1;
        }
        let caught = tree.intersect(&|space: &Aabb| on_the_way(space, &ray));
        assert!(caught.len() * 20 < bricks.len());
    }
    assert!(hits > 0);
}

#[test]
fn nearest_needs_the_objects_of_the_tree() {
    let bricks = scatter(10, 50, 7);
    let bounds: Vec<Aabb> = bricks.iter().map(|b| b.bounds()).collect();
    let tree = KdTree::new(&bounds).unwrap();
    let ray = ray_from(1.0, 1.0);
    let fewer = bricks[..5].to_vec();
    assert!(tree.nearest(&fewer, &ray, &|_: &Aabb| true).is_none());
}

#[test]
fn two_boxes_apart_are_split_between_them() {
    let bounds = vec![cube(0, 0, 0, 10), cube(90, 0, 0, 10)];
    let tree = KdTree::new(&bounds).unwrap();
    match &tree.root {
        Node::Node { node } => {
            // The first of the cheapest planes is the far face of the first box.
            assert_eq!(node.left_space, Aabb::new(Point3::new(0, 0, 0), Point3::new(10, 10, 10)));
            assert_eq!(node.right_space, Aabb::new(Point3::new(10, 0, 0), Point3::new(100, 10, 10)));
            assert!(matches!(&node.left_node, Node::Leaf { items } if items == &vec![0usize]));
        }
        Node::Leaf { .. } => panic!("two boxes far apart are worth a split"),
    }
    let left = tree.intersect(&|space: &Aabb| space.min.x < 50);
    assert!(left.contains(&0));
}
