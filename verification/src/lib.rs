//! Escape-time evaluation of a rectangular grid over the complex plane.
//!
//! The crate produces the dataset behind a Mandelbrot-set image: it turns a
//! grid specification into an ordered sequence of sample positions, splits
//! that sequence into contiguous chunks for a fixed number of workers, runs
//! the escape-time iteration on every position, accounts for the progress
//! signals the workers emit, and concatenates the finished samples.
//!
//! All real quantities (coordinates, step size, escape radius, magnitudes)
//! are held in fixed point with six decimal places: an `i64` counts
//! micro-units, so `1_000_000` stands for `1.0`. The arithmetic is therefore
//! exact and every component here is verified; converting to and from
//! floating point is left to unverified callers.

pub mod config;
pub mod sample;
pub mod escape;
pub mod grid;
pub mod partition;
pub mod worker;
pub mod progress;
pub mod collect;
pub mod pipeline;

