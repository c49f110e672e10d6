//! Recovery of the internal state of a three-register XOR-shift generator
//! from partial observations of its output.
//!
//! The core is linear algebra over GF(2): one step of the generator is a
//! bit-matrix, observations are bit-vectors, and a rank-reduced inverse of
//! the observation matrix maps observations back to states.  Around that
//! core stand a reference scalar generator, closed-form single-step
//! inverses per register, a multi-lane generator with jump matrices, and
//! the search that walks a state back to its seeding tick.

pub mod matrix;
pub mod matrix32;
pub mod matrix64;
pub mod matrix128;
pub mod rand32;
pub mod rand32_rev;
pub mod rand32_simd;
pub mod mod24;
pub mod u56_to_seed;

pub use mod24::Mod24Solver;
pub use u56_to_seed::U56ToSeed;
