//! Distance and similarity measures over collections, given either as
//! aligned pair sequences or as counted bags.

pub mod hamming;
pub mod jaccard;

pub use hamming::hamming;
pub use jaccard::JaccardSim;
pub use jaccard::jaccard;
