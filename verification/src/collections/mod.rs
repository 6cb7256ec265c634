//! Counting maps, permutation generation, shingle windows, and the
//! construction traits they share.

pub mod countedmap;
pub mod permutations;
pub mod shingles;
pub mod traits;

pub use countedmap::CountedMap;
pub use permutations::Permutations;
pub use shingles::Shingles;
pub use shingles::shingles;
pub use traits::FromKeys;
pub use traits::FromKeysAndValues;
