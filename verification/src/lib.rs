//! The combinatorial core of an offline path tracer: bounding boxes, the
//! bounding-volume hierarchy and the order in which it is searched, the
//! choices a surface makes when it scatters light, the bounded recursion that
//! follows a ray from bounce to bounce, and the split of an image into bands
//! that workers fill and the scheduler puts together again.
//!
//! Every real quantity is a [`math::Scalar`]: an ordered key. The library
//! compares such quantities, turns their sign and carries them along; sums,
//! products and roots are its caller's, who hands them in as values or as
//! closures. What a closure may return is all that the library assumes of
//! it: each search states its result for whatever the closures answer, and
//! names it outright where they answer as functions do.

pub mod args;
pub mod bvh;
pub mod hittable;
pub mod material;
pub mod math;
pub mod render;
pub mod scheduler;
pub mod transport;
pub mod writers;
