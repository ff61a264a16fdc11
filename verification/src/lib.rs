//! Offline builder for a Bounding Volume Hierarchy (BVH) over a triangle soup.
//!
//! The builder turns an unordered sequence of triangles into a binary tree of
//! axis-aligned bounding boxes over contiguous ranges of a shared triangle
//! array, guided by a surface-area cost heuristic, and flattens the result
//! into a byte stream for an external consumer.
//!
//! Geometry is modelled in fixed-point form: every coordinate is an `i32`.
//! Derived quantities (centroids, box centers, split positions) use exact
//! integer arithmetic with truncating division, so every function here has a
//! precise mathematical contract.

pub mod bounding_box;
pub mod builder;
pub mod codec;
pub mod node;
pub mod tree;
pub mod triangle;
pub mod vector;
