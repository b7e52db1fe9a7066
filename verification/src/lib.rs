//! Small and simple library to work with 2D and 3D vectors and points,
//! built on exact rational scalars so that every arithmetic, metric and
//! coordinate-transform operation is verified against a mathematical model.

pub mod point;
pub mod rat;
pub mod scalar;
pub mod text;
pub mod traits;
pub mod vec2;
pub mod vec3;

use vstd::prelude::*;

verus! {

/// A recoverable domain failure: every operation either fully succeeds
/// or reports one of these causes.
#[derive(Debug, Clone, Copy, PartialEq, Eq, Structural)]
pub enum GeomError {
    /// A scalar divisor was zero.
    DivisionByZero,
    /// A basis handed to `dual_basis` was linearly dependent.
    DegenerateBasis,
    /// A text form did not hold exactly the expected number of tokens.
    WrongTokenCount { expected: usize, found: usize },
    /// A token of a text form was not a number this library can hold.
    BadToken { index: usize },
}

} // verus!
