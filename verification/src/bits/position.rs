use vstd::arithmetic::div_mod::lemma_fundamental_div_mod;
use vstd::prelude::*;

verus! {

/// A storage location for one bit: which byte holds it, and where in the byte.
///
/// A position stands for the flat bit index `idx * 8 + bit`; over pairs with
/// `bit < 8` that mapping is a bijection.
#[derive(PartialEq, Eq, Structural, Clone, Copy, Debug)]
pub struct Position {
    /// Index of the byte that holds the bit.
    pub idx: usize,
    /// Offset of the bit within that byte, `0..=7`.
    pub bit: u8,
}

impl Position {
    /// The flat bit index this position stands for.
    pub open spec fn spec_flat_index(self) -> int {
        self.idx * 8 + self.bit
    }

    /// A position is well formed when its in-byte offset is below eight.
    pub open spec fn wf(self) -> bool {
        self.bit < 8
    }

    /// Splits a flat bit index into its byte index and in-byte offset.
    pub fn from_flat_index(index: usize) -> (r: Position)
        ensures
            r.idx == index / 8,
            r.bit == index % 8,
            r.wf(),
            r.spec_flat_index() == index,
    {
        proof {
            lemma_fundamental_div_mod(index as int, 8);
        }
        Position { idx: index / 8, bit: (index % 8) as u8 }
    }

    /// Rebuilds the flat bit index from the byte index and the offset.
    pub fn to_flat_index(self) -> (r: usize)
        requires
            self.spec_flat_index() <= usize::MAX,
        ensures
            r == self.spec_flat_index(),
    {
        self.idx * 8 + self.bit as usize
    }

    /// The position of the next bit, carrying over the byte boundary.
    pub fn increment(self) -> (r: Position)
        requires
            self.wf(),
            self.bit == 7 ==> self.idx < usize::MAX,
        ensures
            r.wf(),
            r.spec_flat_index() == self.spec_flat_index() + 1,
            self.bit < 7 ==> r == (Position { idx: self.idx, bit: (self.bit + 1) as u8 }),
            self.bit == 7 ==> r == (Position { idx: (self.idx + 1) as usize, bit: 0u8 }),
    {
        let bit = self.bit + 1;
        if bit as usize >= 8 {
            Position { idx: self.idx + 1, bit: 0 }
        } else {
            Position { idx: self.idx, bit }
        }
    }
}

impl From<usize> for Position {
    /// Same translation as [`Position::from_flat_index`].
    fn from(value: usize) -> (r: Position) {
        Position::from_flat_index(value)
    }
}

impl vstd::std_specs::convert::FromSpecImpl<usize> for Position {
    open spec fn obeys_from_spec() -> bool {
        true
    }

    open spec fn from_spec(value: usize) -> Position {
        Position { idx: value / 8, bit: (value % 8) as u8 }
    }
}

/// Law: translating a flat index into a position and back returns the index.
pub proof fn lemma_flat_index_round_trip(n: usize)
    ensures
        (Position { idx: n / 8, bit: (n % 8) as u8 }).spec_flat_index() == n,
{
    lemma_fundamental_div_mod(n as int, 8);
}

} // verus!
