//! Individually addressable bits packed into byte-granular storage.

pub mod bit;
pub mod bvec;
pub mod byte;
pub mod position;

pub use bit::Bit;
pub use bit::spec_bit_of_bool;
pub use bit::spec_bit_of_u8;
pub use bvec::BVec;
pub use bvec::spec_bit_at;
pub use byte::Byte;
pub use byte::lemma_bits_determine_byte;
pub use byte::lemma_byte_of_bits_pointwise;
pub use byte::lemma_reset_bit_effect;
pub use byte::lemma_set_bit_effect;
pub use byte::lemma_toggle_bit_effect;
pub use byte::lemma_toggle_bit_involution;
pub use byte::lemma_zero_byte_clear;
pub use byte::spec_bit_set;
pub use byte::spec_byte_of_bits;
pub use byte::spec_get_bit;
pub use byte::spec_mask;
pub use byte::spec_reset_bit;
pub use byte::spec_set_bit;
pub use byte::spec_toggle_bit;
pub use position::Position;
pub use position::lemma_flat_index_round_trip;
