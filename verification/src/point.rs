//! Points on a plane: absolute locations, distinct from free vectors
//! although they share a coordinate representation.  A point can be
//! translated by a vector and two points can be subtracted into the
//! displacement vector between them, but two points cannot be added.

use vstd::prelude::*;

use crate::scalar::Scalar;
use crate::vec2::{add2_fits, r2_add, r2_eq, r2_neg, r2_sub, r2_zero, sub2_fits, Rat2, Vec2};

verus! {

/// 2D point in cartesian coordinates.
#[derive(Debug, Clone, Copy)]
pub struct Point {
    /// component of point
    pub x: Scalar,
    /// component of point
    pub y: Scalar,
}

impl View for Point {
    type V = Rat2;

    open spec fn view(&self) -> Rat2 {
        Rat2 { x: self.x@, y: self.y@ }
    }
}

impl Point {
    /// Both components are valid scalars.
    pub open spec fn wf(self) -> bool {
        self.x.wf() && self.y.wf()
    }

    /// Constructs a new `Point` from its coordinates.
    pub fn new(x: Scalar, y: Scalar) -> (r: Point)
        requires
            x.wf(),
            y.wf(),
        ensures
            r@ == (Rat2 { x: x@, y: y@ }),
            r.wf(),
    {
        Point { x, y }
    }

    /// Constructs a zero `Point`: the origin.
    pub fn zero() -> (r: Point)
        ensures
            r@ == r2_zero(),
            r.wf(),
    {
        Point { x: Scalar::from_int(0), y: Scalar::from_int(0) }
    }

    /// Construct the `Point` at the position that the free vector `v`
    /// reaches from the origin.
    pub fn from_vec2(v: Vec2) -> (r: Point)
        requires
            v.wf(),
        ensures
            r@ == v@,
            r.wf(),
    {
        Point { x: v.x, y: v.y }
    }

    /// The radius vector of the point: its position as a displacement
    /// from the origin.
    pub fn position(self) -> (r: Vec2)
        requires
            self.wf(),
        ensures
            r@ == self@,
            r.wf(),
    {
        Vec2 { x: self.x, y: self.y }
    }

    /// The point translated by the vector `rhs`.
    pub fn add(self, rhs: Vec2) -> (r: Point)
        requires
            self.wf(),
            rhs.wf(),
            add2_fits(self@, rhs@),
        ensures
            r@ == r2_add(self@, rhs@),
            r.wf(),
    {
        Point { x: self.x.add(rhs.x), y: self.y.add(rhs.y) }
    }

    /// The point translated backwards by the vector `rhs`.
    pub fn sub(self, rhs: Vec2) -> (r: Point)
        requires
            self.wf(),
            rhs.wf(),
            sub2_fits(self@, rhs@),
        ensures
            r@ == r2_sub(self@, rhs@),
            r.wf(),
    {
        Point { x: self.x.sub(rhs.x), y: self.y.sub(rhs.y) }
    }

    /// The displacement vector from the point `rhs` to this point.
    pub fn sub_point(self, rhs: Point) -> (r: Vec2)
        requires
            self.wf(),
            rhs.wf(),
            sub2_fits(self@, rhs@),
        ensures
            r@ == r2_sub(self@, rhs@),
            r.wf(),
    {
        Vec2 { x: self.x.sub(rhs.x), y: self.y.sub(rhs.y) }
    }

    /// The point reflected through the origin.  Negating an absolute
    /// position is unusual; the operation is kept for parity with the
    /// vector types.
    pub fn neg(self) -> (r: Point)
        requires
            self.wf(),
        ensures
            r@ == r2_neg(self@),
            r.wf(),
    {
        Point { x: self.x.neg(), y: self.y.neg() }
    }
}

impl PartialEq for Point {
    /// Two points are equal exactly when their coordinates denote the
    /// same rationals.
    fn eq(&self, other: &Self) -> (r: bool) {
        self.x == other.x && self.y == other.y
    }
}

impl vstd::std_specs::cmp::PartialEqSpecImpl for Point {
    open spec fn obeys_eq_spec() -> bool {
        true
    }

    open spec fn eq_spec(&self, other: &Self) -> bool {
        r2_eq(self@, other@)
    }
}

} // verus!
