//! The ordering and decision core of an offline Monte Carlo path tracer.
//!
//! Every scalar that the tracer compares (a box coordinate, a ray parameter)
//! is handled here as an `i64` key whose order is the order of the quantity
//! it stands for. Over those keys the crate states and proves the union of
//! bounding boxes and the slab test (`aabb`), the choice of the hit among
//! the crossings of a ray and the exhaustive search of a list (`hit`), the
//! construction and traversal of the bounding-volume hierarchy (`bvh`,
//! `walk`), the scattering rules of the materials (`material`), the bounce
//! rules of the integrator (`integrator`) and the lattice of the noise
//! texture (`perlin`).

pub mod aabb;
pub mod bvh;
pub mod hit;
pub mod integrator;
pub mod material;
pub mod perlin;
pub mod walk;
