//! The core of a small offline ray tracer: homogeneous tuples, dense matrices,
//! placement transforms, ray-surface intersection and recursive shading.
//!
//! Every algorithm is written over a [`scalar::Scalar`], the arithmetic that
//! the numbers obey, and its contract says which scalar comes out in terms of
//! that arithmetic. [`fixed::Fixed`] is a scalar on the integers that lives
//! here; floating point is brought by the caller.
//!
//! Nothing here panics. A surface or a camera is built only on a placement
//! that has an inverse: `new` asks for one in its `requires`, `try_new`
//! tests for one, and every question put to what was built asks that it be
//! placed. Where a tuple that has to be a point or a vector is neither, a
//! function whose argument shows it asks for the opposite in its
//! `requires`, and a function that only finds out while it computes returns
//! `None`.
pub mod scalar;
pub mod fixed;
pub mod tuples;
pub mod matrices;
pub mod transformations;
pub mod image;
pub mod material;
pub mod geometry;
pub mod sorting;
pub mod light;
pub mod raytracer;

