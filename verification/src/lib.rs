//! The deterministic core of a triangle-mesh path tracer: the acceleration
//! structure and its traversal order, the sampling bookkeeping, and the
//! byte formats the renderer reads and writes.
//!
//! Real-valued quantities never enter this crate as numbers. A coordinate
//! or a cost is carried as an *order key*: a signed integer chosen so that
//! comparing two keys gives the same answer as comparing the reals they
//! stand for. Everything here only ever compares keys; arithmetic on the
//! reals themselves belongs to the caller.

pub mod vector;
pub mod scene;
pub mod texture;
pub mod bvh;
pub mod loader;
pub mod image;
pub mod ray;
pub mod renderer;
