//! Axis-aligned bounding boxes on the integer lattice.
//!
//! Bounds only ever serve to rule primitives out, so they may be generous: a
//! caller rounds the corners of a primitive outward onto whole coordinates.
//! On whole coordinates a volume is an exact integer, and with it the cost of
//! a split.
use vstd::prelude::*;

verus! {

/// A lattice point.
#[derive(Clone, Copy, Debug, PartialEq, Eq, Structural)]
pub struct Point3 {
    pub x: i32,
    pub y: i32,
    pub z: i32,
}

impl Point3 {
    /// The coordinate on axis `d`: 0 is x, 1 is y, anything else is z.
    pub open spec fn get(self, d: int) -> int {
        if d == 0 {
            self.x as int
        } else if d == 1 {
            self.y as int
        } else {
            self.z as int
        }
    }

    /// The point with the coordinate on axis `d` replaced by `v`.
    pub open spec fn with(self, d: int, v: i32) -> Point3 {
        if d == 0 {
            Point3 { x: v, ..self }
        } else if d == 1 {
            Point3 { y: v, ..self }
        } else {
            Point3 { z: v, ..self }
        }
    }

    /// The point with these coordinates.
    pub fn new(x: i32, y: i32, z: i32) -> (p: Point3)
        ensures
            p == (Point3 { x, y, z }),
    {
        Point3 { x, y, z }
    }

    /// The coordinate on axis `d`.
    pub fn coord(&self, d: usize) -> (v: i32)
        ensures
            v == self.get(d as int),
    {
        if d == 0 {
            self.x
        } else if d == 1 {
            self.y
        } else {
            self.z
        }
    }

    /// The component-wise minimum.
    pub fn min_by_component(&self, other: &Point3) -> (p: Point3)
        ensures
            forall|d: int| #[trigger] p.get(d) == spec_min(self.get(d), other.get(d)),
    {
        Point3 { x: min32(self.x, other.x), y: min32(self.y, other.y), z: min32(self.z, other.z) }
    }

    /// The component-wise maximum.
    pub fn max_by_component(&self, other: &Point3) -> (p: Point3)
        ensures
            forall|d: int| #[trigger] p.get(d) == spec_max(self.get(d), other.get(d)),
    {
        Point3 { x: max32(self.x, other.x), y: max32(self.y, other.y), z: max32(self.z, other.z) }
    }
}

/// The smaller of the two.
pub open spec fn spec_min(a: int, b: int) -> int {
    if a <= b {
        a
    } else {
        b
    }
}

/// The larger of the two.
pub open spec fn spec_max(a: int, b: int) -> int {
    if a >= b {
        a
    } else {
        b
    }
}

/// `v` forced into `[lo, hi]`: the larger of `v` and `lo`, but at most `hi`.
pub open spec fn spec_clamp(v: int, lo: int, hi: int) -> int {
    spec_min(spec_max(v, lo), hi)
}

/// The smaller of the two.
pub fn min32(a: i32, b: i32) -> (r: i32)
    ensures
        r == spec_min(a as int, b as int),
{
    if a <= b {
        a
    } else {
        b
    }
}

/// The larger of the two.
pub fn max32(a: i32, b: i32) -> (r: i32)
    ensures
        r == spec_max(a as int, b as int),
{
    if a >= b {
        a
    } else {
        b
    }
}

/// `v` forced into `[lo, hi]`.
pub fn clamp32(v: i32, lo: i32, hi: i32) -> (r: i32)
    ensures
        r == spec_clamp(v as int, lo as int, hi as int),
{
    min32(max32(v, lo), hi)
}

/// A box, both corners included.
#[derive(Clone, Copy, Debug, PartialEq, Eq, Structural)]
pub struct Aabb {
    pub min: Point3,
    pub max: Point3,
}

impl Aabb {
    /// Whether no axis is inverted, so that the box holds at least one point.
    pub open spec fn valid(self) -> bool {
        forall|d: int| 0 <= d < 3 ==> #[trigger] self.min.get(d) <= self.max.get(d)
    }

    /// The length of the box along axis `d`.
    pub open spec fn extent(self, d: int) -> int {
        self.max.get(d) - self.min.get(d)
    }

    /// The volume: the product of the three extents, and 0 for a box that is
    /// inverted on some axis.
    pub open spec fn volume_spec(self) -> int {
        if self.valid() {
            self.extent(0) * self.extent(1) * self.extent(2)
        } else {
            0
        }
    }

    /// Whether `p` lies in the box, faces included.
    pub open spec fn contains_spec(self, p: Point3) -> bool {
        forall|d: int| 0 <= d < 3 ==> self.min.get(d) <= #[trigger] p.get(d) <= self.max.get(d)
    }

    /// Whether every point of `other` lies in the box.
    pub open spec fn encloses(self, other: Aabb) -> bool {
        forall|d: int|
            0 <= d < 3 ==> self.min.get(d) <= #[trigger] other.min.get(d) && other.max.get(d)
                <= self.max.get(d)
    }

    /// Whether the box is a cell of the lattice or a part of one: whether it
    /// holds a point and is at most one unit long on each axis. A point in
    /// space that is not on the lattice lies in such a cell, and in every box
    /// around the cell.
    pub open spec fn is_cell(self) -> bool {
        forall|d: int| 0 <= d < 3 ==> 0 <= #[trigger] self.extent(d) <= 1
    }

    /// The smallest box around both.
    pub open spec fn join_spec(self, other: Aabb) -> Aabb {
        Aabb {
            min: Point3 {
                x: spec_min(self.min.x as int, other.min.x as int) as i32,
                y: spec_min(self.min.y as int, other.min.y as int) as i32,
                z: spec_min(self.min.z as int, other.min.z as int) as i32,
            },
            max: Point3 {
                x: spec_max(self.max.x as int, other.max.x as int) as i32,
                y: spec_max(self.max.y as int, other.max.y as int) as i32,
                z: spec_max(self.max.z as int, other.max.z as int) as i32,
            },
        }
    }

    /// The box that holds nothing and joins to whatever it is joined with.
    pub open spec fn empty_spec() -> Aabb {
        Aabb {
            min: Point3 { x: i32::MAX, y: i32::MAX, z: i32::MAX },
            max: Point3 { x: i32::MIN, y: i32::MIN, z: i32::MIN },
        }
    }

    /// The box between two corners.
    pub fn new(min: Point3, max: Point3) -> (b: Aabb)
        ensures
            b == (Aabb { min, max }),
    {
        Aabb { min, max }
    }

    /// The box that holds nothing.
    pub fn empty() -> (b: Aabb)
        ensures
            b == Aabb::empty_spec(),
            !b.valid(),
            forall|p: Point3| !b.contains_spec(p),
            forall|o: Aabb| #[trigger] b.join_spec(o) == o,
    {
        let b = Aabb {
            min: Point3 { x: i32::MAX, y: i32::MAX, z: i32::MAX },
            max: Point3 { x: i32::MIN, y: i32::MIN, z: i32::MIN },
        };
        assert(!(b.min.get(0) <= b.max.get(0)));
        assert forall|p: Point3| !b.contains_spec(p) by {
            assert(!(b.min.get(0) <= p.get(0) <= b.max.get(0)));
        }
        b
    }

    /// Whether no axis is inverted.
    pub fn is_valid(&self) -> (r: bool)
        ensures
            r == self.valid(),
    {
        let r = self.min.x <= self.max.x && self.min.y <= self.max.y && self.min.z <= self.max.z;
        proof {
            if r {
                assert forall|d: int| 0 <= d < 3 implies #[trigger] self.min.get(d)
                    <= self.max.get(d) by {}
            } else {
                assert(!(self.min.get(0) <= self.max.get(0)) || !(self.min.get(1)
                    <= self.max.get(1)) || !(self.min.get(2) <= self.max.get(2)));
            }
        }
        r
    }

    /// Whether `point` lies in the box, faces included.
    pub fn contains(&self, point: &Point3) -> (r: bool)
        ensures
            r == self.contains_spec(*point),
    {
        let r = self.min.x <= point.x && point.x <= self.max.x && self.min.y <= point.y && point.y
            <= self.max.y && self.min.z <= point.z && point.z <= self.max.z;
        proof {
            if r {
                assert forall|d: int| 0 <= d < 3 implies self.min.get(d) <= #[trigger] point.get(d)
                    <= self.max.get(d) by {}
            } else {
                assert(!(self.min.get(0) <= point.get(0) <= self.max.get(0)) || !(self.min.get(1)
                    <= point.get(1) <= self.max.get(1)) || !(self.min.get(2) <= point.get(2)
                    <= self.max.get(2)));
            }
        }
        r
    }

    /// The smallest box around both.
    pub fn join(&self, other: &Aabb) -> (b: Aabb)
        ensures
            b == self.join_spec(*other),
            b.encloses(*self),
            b.encloses(*other),
    {
        let b = Aabb {
            min: Point3 {
                x: min32(self.min.x, other.min.x),
                y: min32(self.min.y, other.min.y),
                z: min32(self.min.z, other.min.z),
            },
            max: Point3 {
                x: max32(self.max.x, other.max.x),
                y: max32(self.max.y, other.max.y),
                z: max32(self.max.z, other.max.z),
            },
        };
        b
    }

    /// The volume of the box, 0 where an axis is inverted.
    pub fn volume(&self) -> (v: u128)
        ensures
            v == self.volume_spec(),
            v <= MAX_VOLUME,
    {
        if !self.is_valid() {
            return 0;
        }
        let ex: u128 = (self.max.x as i64 - self.min.x as i64) as u128;
        let ey: u128 = (self.max.y as i64 - self.min.y as i64) as u128;
        let ez: u128 = (self.max.z as i64 - self.min.z as i64) as u128;
        proof {
            assert(self.min.get(0) <= self.max.get(0));
            assert(self.min.get(1) <= self.max.get(1));
            assert(self.min.get(2) <= self.max.get(2));
            lemma_product_bound(ex as int, ey as int, ez as int);
        }
        ex * ey * ez
    }
}

/// No box has a larger volume: the cube of the widest extent that fits the
/// coordinate type.
pub const MAX_VOLUME: u128 = 79228162458924105385300197375;

/// The product of three extents stays within `MAX_VOLUME`.
pub proof fn lemma_product_bound(a: int, b: int, c: int)
    requires
        0 <= a <= 0xffff_ffff,
        0 <= b <= 0xffff_ffff,
        0 <= c <= 0xffff_ffff,
    ensures
        0 <= a * b <= 0xffff_ffff * 0xffff_ffff,
        0 <= a * b * c <= MAX_VOLUME,
{
    assert(0 <= a * b <= 0xffff_ffff * 0xffff_ffff) by (nonlinear_arith)
        requires
            0 <= a <= 0xffff_ffff,
            0 <= b <= 0xffff_ffff,
    ;
    let ab = a * b;
    assert(0 <= ab * c <= (0xffff_ffff * 0xffff_ffff) * 0xffff_ffff) by (nonlinear_arith)
        requires
            0 <= ab <= 0xffff_ffff * 0xffff_ffff,
            0 <= c <= 0xffff_ffff,
    ;
}

/// What can say how much space it takes.
pub trait Boundable {
    /// The bounds, as a function of the value.
    spec fn bounds_spec(&self) -> Aabb;

    /// The bounds of this object.
    fn bounds(&self) -> (b: Aabb)
        ensures
            b == self.bounds_spec(),
    ;
}

/// What surrounds space and may hold points.
pub trait Container {
    /// Whether `point` is inside, as a function of the value.
    spec fn holds(&self, point: Point3) -> bool;

    /// Whether this object holds `point`, its boundary included.
    fn contains(&self, point: &Point3) -> (r: bool)
        ensures
            r == self.holds(*point),
    ;
}

impl Boundable for Aabb {
    open spec fn bounds_spec(&self) -> Aabb {
        *self
    }

    fn bounds(&self) -> (b: Aabb) {
        *self
    }
}

impl Boundable for Point3 {
    open spec fn bounds_spec(&self) -> Aabb {
        Aabb { min: *self, max: *self }
    }

    /// A point takes the box that holds only itself.
    fn bounds(&self) -> (b: Aabb) {
        Aabb { min: *self, max: *self }
    }
}

impl Container for Aabb {
    open spec fn holds(&self, point: Point3) -> bool {
        self.contains_spec(point)
    }

    fn contains(&self, point: &Point3) -> (r: bool) {
        Aabb::contains(self, point)
    }
}

} // verus!
