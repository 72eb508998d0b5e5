//! # NURBS Curve Evaluation
//!
//! Non-Uniform Rational B-Spline curves, evaluated with the de Boor algorithm
//! in homogeneous coordinates.
//!
//! The crate is generic over its scalar and vector types (see [`ScalarT`] and
//! [`VectorT`]); its results are stated in terms of the operations of those
//! types.

pub mod algebra;
pub mod curve;
pub mod knotvec;

pub use algebra::{ScalarT, VectorT};
pub use curve::{Curve, CurveError};
pub use knotvec::KnotVec;
