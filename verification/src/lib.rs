//! A recursive ray tracer over fixed-point arithmetic: scenes of spheres and
//! planes, lit by ambient, directional and point lights, rendered to an
//! 8-bit-per-channel pixel grid in independent horizontal bands.
//!
//! All scalar quantities are fixed-point numbers: an `i64` mantissa carrying
//! micro-units, so the value one is the mantissa [`fx::FX_ONE`]. Arithmetic
//! saturates at the `i64` range instead of wrapping, and degenerate quotients
//! (a zero divisor, a negative radicand) are given fixed outcomes, so every
//! operation is total and deterministic.

pub mod draw;
pub mod fx;
pub mod mat;
pub mod opts;
pub mod ray;
pub mod render;
pub mod sched;
pub mod vector;
