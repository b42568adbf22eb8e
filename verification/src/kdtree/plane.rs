//! Split planes and the sides of a split.
use vstd::prelude::*;

verus! {

/// An axis-aligned plane: the axis it is perpendicular to, and where it cuts
/// that axis.
#[derive(Clone, Copy, Debug, PartialEq, Eq, Structural)]
pub enum Plane {
    X(i32),
    Y(i32),
    Z(i32),
}

impl Plane {
    /// The axis: 0 for x, 1 for y, 2 for z.
    pub open spec fn dim(self) -> int {
        match self {
            Plane::X(_) => 0,
            Plane::Y(_) => 1,
            Plane::Z(_) => 2,
        }
    }

    /// The coordinate at which the plane cuts its axis.
    pub open spec fn pos(self) -> int {
        match self {
            Plane::X(v) => v as int,
            Plane::Y(v) => v as int,
            Plane::Z(v) => v as int,
        }
    }

    /// The plane across axis `d` (0 for x, 1 for y, else z) at `position`.
    pub fn across(d: usize, position: i32) -> (p: Plane)
        ensures
            p.pos() == position,
            p.dim() == (if d == 0 {
                0int
            } else if d == 1 {
                1int
            } else {
                2int
            }),
    {
        if d == 0 {
            Plane::X(position)
        } else if d == 1 {
            Plane::Y(position)
        } else {
            Plane::Z(position)
        }
    }

    /// The axis: 0 for x, 1 for y, 2 for z.
    pub fn dimension(&self) -> (d: usize)
        ensures
            d == self.dim(),
            d < 3,
    {
        match self {
            Plane::X(_) => 0,
            Plane::Y(_) => 1,
            Plane::Z(_) => 2,
        }
    }

    /// The coordinate at which the plane cuts its axis.
    pub fn position(&self) -> (v: i32)
        ensures
            v == self.pos(),
    {
        match self {
            Plane::X(v) => *v,
            Plane::Y(v) => *v,
            Plane::Z(v) => *v,
        }
    }
}

/// Where a primitive lies with respect to a split plane.
#[derive(Clone, Copy, Debug, PartialEq, Eq, Structural)]
pub enum Side {
    Left,
    Right,
    Both,
}

} // verus!
