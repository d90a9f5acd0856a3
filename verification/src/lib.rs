//! A minimal ray tracer with a verified core.
//!
//! Every scalar of the geometry is a fixed-point number: an `i64` counting
//! millionths of a scene unit. Products and quotients round toward zero, and
//! every public function states the exact integer value it computes, so the
//! whole pipeline — camera rays, sphere intersection, nearest-hit selection,
//! shading and per-pixel sampling — is pinned down by its contracts.
//!
//! Floating-point input (for example a jitter drawn from a random number
//! generator) is converted to fixed point by the caller before it reaches
//! this crate.

pub mod fixed;
pub mod vector;
pub mod ray;
pub mod hittable;
pub mod sphere;
pub mod hittablelist;
pub mod camera;
pub mod render;
