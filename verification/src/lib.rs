//! Geohash conversion on exact fixed-point coordinates, one value at a time or
//! in order-preserving parallel batches.
//!
//! Coordinates are signed integers counting units of 2^-32 degree. Every cell
//! boundary of a geohash of up to twelve characters is a whole number of such
//! units, so the bisections below are exact.

pub mod alphabet;
pub mod error;
pub mod grid;
pub mod codec;
pub mod pool;
pub mod batch;
pub mod laws;
