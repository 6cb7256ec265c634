//! Builder-style similarity computations.

pub mod jaccard;

pub use jaccard::Jaccard;
pub use jaccard::JaccardBulder;
pub use jaccard::JaccardFromKeys;
pub use jaccard::JaccardFromPairs;
