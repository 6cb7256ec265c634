//! The predicate-gated sliding window, reachable from the collections as
//! well.

pub use crate::shingles::Shingles;
pub use crate::shingles::shingles;
