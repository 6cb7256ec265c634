//! Bit-level containers and counting collections.
//!
//! The heart of the crate is a packed bit vector: a growable sequence of
//! bits stored eight to a byte, with single-bit reads, writes and toggles.
//! Around it stand counting maps and bags, similarity measures over them,
//! shingle windows over slices, and a permutation generator.

pub mod bits;
pub mod collections;
pub mod counted_bag;
pub mod directions;
pub mod distances;
pub mod shingles;

pub use collections::FromKeys;
pub use collections::FromKeysAndValues;
