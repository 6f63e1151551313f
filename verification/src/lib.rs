//! A recursive, stochastic ray tracer over verified fixed-point
//! arithmetic.
//!
//! Scenes of spheres with diffuse, metallic and dielectric materials are
//! rendered by the recursive integrator in `tracer`; every scalar is a
//! fixed-point number (see `fixed`), every operation carries an exact
//! contract over spec-level mirrors, and the only trusted boundary is the
//! random draw in `rng`.  The surrounding driver supplies image geometry,
//! sample counts and pixel output.

pub mod fixed;
pub mod rng;
pub mod vec3;
pub mod ray;
pub mod material;
pub mod hittable;
pub mod camera;
pub mod color;
pub mod tracer;
