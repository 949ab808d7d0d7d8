//! A spectral path tracer core.
//!
//! Radiance is computed per wavelength: every scalar that depends on the
//! wavelength of a light path is a node in a lazily evaluated expression
//! graph, and the tracer follows camera rays through a scene of spheres,
//! accumulating wavelength-tagged brightness samples into a film.
//!
//! All scalars are 16.16 fixed-point numbers carried in `i64`, so every
//! arithmetic step has an exact integer specification.

pub mod color;
pub mod expression;
pub mod film;
pub mod fixed;
pub mod math;
pub mod renderer;
pub mod rng;
pub mod spectrum;
pub mod tracer;
pub mod vector;
