//! Posed copies of a triangle mesh.
//!
//! A run reads a mesh from a polygon list and a sequence of transforms from
//! a transform list, poses the mesh under each transform, and writes the
//! poses as one solid model. A transform is a scale, a rotation about each
//! axis and a translation; its matrix is their product in a fixed order, and
//! the normal of every triangle is derived anew from its posed vertices.
//!
//! The library makes no arithmetic of its own. Whoever calls it brings an
//! evaluator, a function that takes one operation at a time ([`arith::Op`])
//! and gives its result; with floating-point numbers that is one line for
//! each operation. What the library proves is everything around those
//! operations: which are made, on which values, in which order, and where
//! each result ends up. Its contracts state results over what the evaluator
//! gives.
//!
//! - [`bytes`], [`number`], [`records`]: scanning of text, the grammar of a
//!   number and of a count, and what the two input formats share.
//! - [`polygon_list`], [`transform_list`]: the two input formats.
//! - [`solid`]: the output format, and the count of its facets.
//! - [`geometry`]: points, triangles, meshes and transforms.
//! - [`arith`], [`matrix`], [`pose`]: the operations, matrices of four by
//!   four, and posing.
//! - [`laws`]: what holds of posing under every evaluator that treats 0 and
//!   1 as numbers do.
//! - [`pipeline`]: the whole run, from the two texts to the solid model.
//! - [`error`]: why a text is refused.

pub mod arith;
pub mod bytes;
pub mod error;
pub mod geometry;
pub mod laws;
pub mod matrix;
pub mod number;
pub mod pipeline;
pub mod polygon_list;
pub mod pose;
pub mod records;
pub mod solid;
pub mod transform_list;
