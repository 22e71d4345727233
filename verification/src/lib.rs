//! Ray-primitive intersection core over exact fixed-point arithmetic.
//!
//! Coordinates, ray parameters and normals are scaled integers: one world
//! unit is `SCALE` raw units. Every intersection test is a deterministic,
//! fully specified function of its inputs; each test's contract pins the
//! result to a spec-level mirror of the algorithm, from which the geometric
//! guarantees (parameter in range, hit point on the ray, normal orientation)
//! are proved.

pub mod math;
pub mod vec3;
pub mod ray;
pub mod hit;
pub mod plane;
pub mod cube;
pub mod cylinder;
pub mod primitive;
