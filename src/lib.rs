//! An exact, brute-force similarity store: named collections of fixed-length
//! points, a registry that binds each name to one dimensionality, and the
//! lane-packed point layout that the distance scan reads.
//!
//! Coordinates are held as the bit patterns of IEEE-754 single-precision
//! values (`f32::to_bits`), so that storing and returning them is exact.

pub mod codec;
pub mod constellation;
pub mod name_index;
pub mod sky;
pub mod supported_sizes;

pub use supported_sizes::SupportedSize;
