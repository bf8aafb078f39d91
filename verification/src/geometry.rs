//! Fixed-point points and the small amount of vector arithmetic the
//! pipeline needs.
//!
//! Coordinates are stored in sub-units: one font design unit is
//! [`SUBUNITS_PER_UNIT`] sub-units.

use vstd::prelude::*;

verus! {

/// Number of sub-units in one font design unit.
pub const SUBUNITS_PER_UNIT: i32 = 64;

/// Largest coordinate magnitude, in sub-units, that the pipeline accepts.
pub const COORD_LIMIT: i32 = 4194304;

/// A point in glyph space, in sub-units.
#[derive(Clone, Copy, Debug, PartialEq, Eq, Structural)]
pub struct Point {
    pub x: i32,
    pub y: i32,
}

impl Point {
    /// Both coordinates lie within `[-COORD_LIMIT, COORD_LIMIT]`.
    pub open spec fn in_range(self) -> bool {
        &&& -COORD_LIMIT <= self.x <= COORD_LIMIT
        &&& -COORD_LIMIT <= self.y <= COORD_LIMIT
    }

    pub fn new(x: i32, y: i32) -> (p: Point)
        ensures
            p.x == x,
            p.y == y,
    {
        Point { x, y }
    }

    /// Tells whether both coordinates are within the accepted range.
    pub fn is_in_range(&self) -> (b: bool)
        ensures
            b == self.in_range(),
    {
        -COORD_LIMIT <= self.x && self.x <= COORD_LIMIT && -COORD_LIMIT <= self.y && self.y
            <= COORD_LIMIT
    }

    /// Tells whether two points coincide.
    pub fn same(&self, other: &Point) -> (b: bool)
        ensures
            b == (*self == *other),
    {
        self.x == other.x && self.y == other.y
    }
}

/// A displacement between two in-range points, in sub-units.
#[derive(Clone, Copy, Debug, PartialEq, Eq, Structural)]
pub struct Vector {
    pub dx: i64,
    pub dy: i64,
}

/// Largest magnitude of a component of the difference of two in-range points.
pub const SPAN_LIMIT: i64 = 8388608;

impl Vector {
    pub open spec fn in_span(self) -> bool {
        &&& -SPAN_LIMIT <= self.dx <= SPAN_LIMIT
        &&& -SPAN_LIMIT <= self.dy <= SPAN_LIMIT
    }

    pub open spec fn is_zero(self) -> bool {
        self.dx == 0 && self.dy == 0
    }

    /// The displacement that leads from `a` to `b`.
    pub open spec fn between(a: Point, b: Point) -> Vector {
        Vector { dx: (b.x - a.x) as i64, dy: (b.y - a.y) as i64 }
    }

    pub open spec fn dot(self, other: Vector) -> int {
        self.dx * other.dx + self.dy * other.dy
    }

    pub open spec fn cross(self, other: Vector) -> int {
        self.dx * other.dy - self.dy * other.dx
    }

    pub open spec fn norm_sq(self) -> int {
        self.dx * self.dx + self.dy * self.dy
    }

    /// Computes the displacement that leads from `a` to `b`.
    pub fn from_points(a: &Point, b: &Point) -> (v: Vector)
        requires
            a.in_range(),
            b.in_range(),
        ensures
            v == Vector::between(*a, *b),
            v.in_span(),
            v.is_zero() <==> *a == *b,
    {
        let ax: i64 = a.x as i64;
        let ay: i64 = a.y as i64;
        let bx: i64 = b.x as i64;
        let by: i64 = b.y as i64;
        Vector { dx: bx - ax, dy: by - ay }
    }
}

} // verus!
