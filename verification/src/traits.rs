//! The capability interface for cross-product-like operations, whose
//! result type depends on the right-hand operand: vector by scalar gives
//! a vector, vector by vector gives a scalar in the plane and a vector
//! in space.  Callers that need such dispatch implement or demand this
//! trait; the library's own operations are the inherent methods of
//! `Vec2` and `Vec3`, which carry full contracts.

use vstd::prelude::*;

verus! {

/// Cross-product-like combination of `Self` with `Rhs`.
pub trait Cross<Rhs = Self> {
    /// The result type of the combination.
    type Output;

    /// Combine `self` with `rhs`.
    fn cross(self, rhs: Rhs) -> Self::Output;
}

} // verus!
