//! The verified core of a path tracer: every decision that the renderer
//! takes without arithmetic on real numbers.
//!
//! That is the split of the sample budget among workers, the order of the
//! pixels, the bounding boxes and the hierarchy built over them, the verdict
//! of the slab test, the searches for the nearest hit, the choice of the root
//! at which a ray hits a sphere, the test of a crossing against a rectangle,
//! the passage of a ray through a medium, the rules by which materials
//! scatter, the path of a ray from bounce to bounce, the lattice of the
//! gradient noise and the lookup of a pixel in an image texture.
//!
//! Real numbers are double-precision numbers, and the library holds them as
//! bit patterns (`u64`): it compares them and picks among them, and never
//! computes with them. The arithmetic of geometry, optics and colour is the
//! caller's, who hands it over as plain values or as functions to call.

pub mod aabb;
pub mod aarect;
pub mod bvh;
pub mod constant_medium;
pub mod hittable;
pub mod hittable_list;
pub mod material;
pub mod perlin;
pub mod render;
pub mod scalar;
pub mod sphere;
pub mod texture;
pub mod util;
