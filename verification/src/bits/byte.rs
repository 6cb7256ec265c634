use crate::bits::Bit;
use crate::bits::spec_bit_of_bool;
use crate::bits::spec_bit_of_u8;
use vstd::prelude::*;

verus! {

/// An 8-bit packed container of eight individually addressable bits.
///
/// Offset 0 addresses the most significant bit of the raw value, offset 7 the
/// least significant: offset `i` reads bit `7 - i` of the underlying integer.
/// Offsets outside `0..=7` violate the callers' precondition.
#[derive(PartialEq, Eq, Structural, Clone, Copy, PartialOrd, Ord, Debug)]
pub struct Byte(pub u8);

/// Whether the bit at `offset` (0 = most significant) is set in `value`.
pub open spec fn spec_bit_set(value: u8, offset: u8) -> bool {
    (value >> ((7 - offset) as u8)) & 1u8 == 1u8
}

/// The bit of `value` at `offset`, as a [`Bit`].
pub open spec fn spec_get_bit(value: u8, offset: u8) -> Bit {
    if spec_bit_set(value, offset) {
        Bit::One
    } else {
        Bit::Zero
    }
}

/// The mask with exactly the bit at `offset` set.
pub open spec fn spec_mask(offset: u8) -> u8 {
    1u8 << ((7 - offset) as u8)
}

/// `value` with the bit at `offset` forced to 1.
pub open spec fn spec_set_bit(value: u8, offset: u8) -> u8 {
    value | spec_mask(offset)
}

/// `value` with the bit at `offset` forced to 0.
pub open spec fn spec_reset_bit(value: u8, offset: u8) -> u8 {
    value & !spec_mask(offset)
}

/// `value` with the bit at `offset` flipped.
pub open spec fn spec_toggle_bit(value: u8, offset: u8) -> u8 {
    value ^ spec_mask(offset)
}

/// Masking with the offset's mask observes exactly the bit at the offset.
proof fn lemma_mask_observes_bit(value: u8, offset: u8)
    by (bit_vector)
    requires
        offset < 8,
    ensures
        (value & spec_mask(offset)) != 0 <==> spec_bit_set(value, offset),
{
}

/// Law: after forcing the bit at `offset` to 1 it reads as set, and every
/// other offset reads exactly as before.
pub proof fn lemma_set_bit_effect(value: u8, offset: u8)
    by (bit_vector)
    requires
        offset < 8,
    ensures
        spec_bit_set(spec_set_bit(value, offset), offset),
        forall|other: u8|
            other < 8 && other != offset ==> spec_bit_set(spec_set_bit(value, offset), other)
                == spec_bit_set(value, other),
{
}

/// Law: after forcing the bit at `offset` to 0 it reads as clear, and every
/// other offset reads exactly as before.
pub proof fn lemma_reset_bit_effect(value: u8, offset: u8)
    by (bit_vector)
    requires
        offset < 8,
    ensures
        !spec_bit_set(spec_reset_bit(value, offset), offset),
        forall|other: u8|
            other < 8 && other != offset ==> spec_bit_set(spec_reset_bit(value, offset), other)
                == spec_bit_set(value, other),
{
}

/// Law: flipping the bit at `offset` inverts what is read there, and every
/// other offset reads exactly as before.
pub proof fn lemma_toggle_bit_effect(value: u8, offset: u8)
    by (bit_vector)
    requires
        offset < 8,
    ensures
        spec_bit_set(spec_toggle_bit(value, offset), offset) == !spec_bit_set(value, offset),
        forall|other: u8|
            other < 8 && other != offset ==> spec_bit_set(spec_toggle_bit(value, offset), other)
                == spec_bit_set(value, other),
{
}

/// Law: flipping the same bit twice returns the original value.
pub proof fn lemma_toggle_bit_involution(value: u8, offset: u8)
    by (bit_vector)
    requires
        offset < 8,
    ensures
        spec_toggle_bit(spec_toggle_bit(value, offset), offset) == value,
{
}

/// Law: two bytes that agree on all eight offsets are equal.
pub proof fn lemma_bits_determine_byte(a: u8, b: u8)
    requires
        forall|offset: u8| offset < 8 ==> spec_bit_set(a, offset) == spec_bit_set(b, offset),
    ensures
        a == b,
{
    assert(spec_bit_set(a, 0) == spec_bit_set(b, 0));
    assert(spec_bit_set(a, 1) == spec_bit_set(b, 1));
    assert(spec_bit_set(a, 2) == spec_bit_set(b, 2));
    assert(spec_bit_set(a, 3) == spec_bit_set(b, 3));
    assert(spec_bit_set(a, 4) == spec_bit_set(b, 4));
    assert(spec_bit_set(a, 5) == spec_bit_set(b, 5));
    assert(spec_bit_set(a, 6) == spec_bit_set(b, 6));
    assert(spec_bit_set(a, 7) == spec_bit_set(b, 7));
    assert(a == b) by (bit_vector)
        requires
            spec_bit_set(a, 0) == spec_bit_set(b, 0),
            spec_bit_set(a, 1) == spec_bit_set(b, 1),
            spec_bit_set(a, 2) == spec_bit_set(b, 2),
            spec_bit_set(a, 3) == spec_bit_set(b, 3),
            spec_bit_set(a, 4) == spec_bit_set(b, 4),
            spec_bit_set(a, 5) == spec_bit_set(b, 5),
            spec_bit_set(a, 6) == spec_bit_set(b, 6),
            spec_bit_set(a, 7) == spec_bit_set(b, 7),
    ;
}

/// Every offset of the zero byte reads as clear.
pub proof fn lemma_zero_byte_clear(offset: u8)
    by (bit_vector)
    requires
        offset < 8,
    ensures
        !spec_bit_set(0u8, offset),
{
}

impl View for Byte {
    type V = u8;

    open spec fn view(&self) -> u8 {
        self.0
    }
}

impl Byte {
    /// Whether the raw value equals the literal 0 (not "no bit is set").
    pub fn is_zero(&self) -> (r: bool)
        ensures
            r == (self@ == 0),
    {
        self.0 == 0
    }

    /// Whether the raw value equals the literal 1 (not "exactly one bit is set").
    pub fn is_one(&self) -> (r: bool)
        ensures
            r == (self@ == 1),
    {
        self.0 == 1
    }

    /// Reads the bit at `bit`, mapping offset `i` to raw-value bit `7 - i`.
    pub fn get_bit(&self, bit: u8) -> (r: Bit)
        requires
            bit < 8,
        ensures
            r == spec_get_bit(self@, bit),
    {
        proof {
            lemma_mask_observes_bit(self.0, bit);
        }
        let mask = 1u8 << (7 - bit);
        if self.0 & mask != 0 {
            Bit::One
        } else {
            Bit::Zero
        }
    }

    /// Returns a new byte with the bit at `bit` forced to 1; the bit then
    /// reads as `One` and no other offset changes.
    pub fn set_bit(self, bit: u8) -> (r: Byte)
        requires
            bit < 8,
        ensures
            r@ == spec_set_bit(self@, bit),
            spec_get_bit(r@, bit) == Bit::One,
            forall|other: u8|
                other < 8 && other != bit ==> spec_get_bit(r@, other) == spec_get_bit(self@, other),
    {
        proof {
            lemma_set_bit_effect(self.0, bit);
        }
        Byte(self.0 | (1u8 << (7 - bit)))
    }

    /// Returns a new byte with the bit at `bit` forced to 0; the bit then
    /// reads as `Zero` and no other offset changes.
    pub fn reset_bit(self, bit: u8) -> (r: Byte)
        requires
            bit < 8,
        ensures
            r@ == spec_reset_bit(self@, bit),
            spec_get_bit(r@, bit) == Bit::Zero,
            forall|other: u8|
                other < 8 && other != bit ==> spec_get_bit(r@, other) == spec_get_bit(self@, other),
    {
        proof {
            lemma_reset_bit_effect(self.0, bit);
        }
        Byte(self.0 & !(1u8 << (7 - bit)))
    }

    /// Returns a new byte with the bit at `bit` flipped; the observed bit
    /// changes and no other offset does.
    pub fn toggle_bit(self, bit: u8) -> (r: Byte)
        requires
            bit < 8,
        ensures
            r@ == spec_toggle_bit(self@, bit),
            spec_get_bit(r@, bit) != spec_get_bit(self@, bit),
            forall|other: u8|
                other < 8 && other != bit ==> spec_get_bit(r@, other) == spec_get_bit(self@, other),
    {
        proof {
            lemma_toggle_bit_effect(self.0, bit);
        }
        Byte(self.0 ^ (1u8 << (7 - bit)))
    }
}

/// The byte built by folding the first `upto` items of a bit sequence:
/// position `k` of the sequence lands at offset `k`, a set bit for `One` and
/// a clear bit otherwise; a shortfall leaves the remaining offsets clear.
pub open spec fn spec_byte_of_bits(s: Seq<Bit>, upto: int) -> u8
    decreases upto,
{
    if upto <= 0 {
        0u8
    } else {
        let prev = spec_byte_of_bits(s, upto - 1);
        if upto - 1 < s.len() && s[upto - 1] == Bit::One {
            spec_set_bit(prev, (upto - 1) as u8)
        } else {
            prev
        }
    }
}

/// Law: the byte folded from a bit sequence reads back, at every offset, the
/// sequence item that landed there, and `Zero` past the sequence's end.
pub proof fn lemma_byte_of_bits_pointwise(s: Seq<Bit>, upto: int)
    requires
        0 <= upto <= 8,
    ensures
        forall|offset: u8|
            offset < 8 ==> spec_bit_set(spec_byte_of_bits(s, upto), offset) == (offset < upto
                && offset < s.len() && s[offset as int] == Bit::One),
    decreases upto,
{
    if upto <= 0 {
        assert forall|offset: u8| offset < 8 implies !spec_bit_set(
            spec_byte_of_bits(s, upto),
            offset,
        ) by {
            lemma_zero_byte_clear(offset);
        }
    } else {
        lemma_byte_of_bits_pointwise(s, upto - 1);
        let prev = spec_byte_of_bits(s, upto - 1);
        if upto - 1 < s.len() && s[upto - 1] == Bit::One {
            lemma_set_bit_effect(prev, (upto - 1) as u8);
        }
    }
}

impl Byte {
    /// Builds a byte from a sequence of bits, position `k` landing at offset
    /// `k`; items beyond the eighth are ignored, a shortfall leaves the
    /// remaining offsets at `Zero`.
    pub fn from_bits(xs: &[Bit]) -> (r: Byte)
        ensures
            r@ == spec_byte_of_bits(xs@, 8),
            forall|offset: u8|
                offset < 8 ==> spec_get_bit(r@, offset) == (if offset < xs@.len() {
                    xs@[offset as int]
                } else {
                    Bit::Zero
                }),
    {
        let n = xs.len();
        let mut acc = Byte(0);
        let mut k: usize = 0;
        while k < 8
            invariant
                k <= 8,
                n == xs@.len(),
                acc@ == spec_byte_of_bits(xs@, k as int),
            decreases 8 - k,
        {
            if k < n && xs[k] == Bit::One {
                acc = acc.set_bit(k as u8);
            }
            k += 1;
        }
        proof {
            lemma_byte_of_bits_pointwise(xs@, 8);
        }
        acc
    }

    /// Builds a byte from a sequence of booleans, `true` standing for `One`.
    pub fn from_bools(xs: &[bool]) -> (r: Byte)
        ensures
            r@ == spec_byte_of_bits(xs@.map_values(|b: bool| spec_bit_of_bool(b)), 8),
            forall|offset: u8|
                offset < 8 ==> spec_get_bit(r@, offset) == (if offset < xs@.len() {
                    spec_bit_of_bool(xs@[offset as int])
                } else {
                    Bit::Zero
                }),
    {
        let ghost bits = xs@.map_values(|b: bool| spec_bit_of_bool(b));
        let n = xs.len();
        let mut acc = Byte(0);
        let mut k: usize = 0;
        while k < 8
            invariant
                k <= 8,
                n == xs@.len(),
                bits == xs@.map_values(|b: bool| spec_bit_of_bool(b)),
                acc@ == spec_byte_of_bits(bits, k as int),
            decreases 8 - k,
        {
            if k < n && xs[k] {
                acc = acc.set_bit(k as u8);
            }
            k += 1;
        }
        proof {
            lemma_byte_of_bits_pointwise(bits, 8);
            assert forall|offset: u8| offset < 8 implies spec_get_bit(acc@, offset) == (if offset
                < xs@.len() {
                spec_bit_of_bool(xs@[offset as int])
            } else {
                Bit::Zero
            }) by {
                assert(bits.len() == xs@.len());
                assert(spec_bit_set(acc@, offset) == (offset < bits.len() && bits[offset as int]
                    == Bit::One));
                if (offset as int) < xs@.len() {
                    assert(bits[offset as int] == spec_bit_of_bool(xs@[offset as int]));
                }
            }
        }
        acc
    }

    /// Builds a byte from a sequence of raw integers, any nonzero value
    /// standing for `One`.
    pub fn from_u8s(xs: &[u8]) -> (r: Byte)
        ensures
            r@ == spec_byte_of_bits(xs@.map_values(|v: u8| spec_bit_of_u8(v)), 8),
            forall|offset: u8|
                offset < 8 ==> spec_get_bit(r@, offset) == (if offset < xs@.len() {
                    spec_bit_of_u8(xs@[offset as int])
                } else {
                    Bit::Zero
                }),
    {
        let ghost bits = xs@.map_values(|v: u8| spec_bit_of_u8(v));
        let n = xs.len();
        let mut acc = Byte(0);
        let mut k: usize = 0;
        while k < 8
            invariant
                k <= 8,
                n == xs@.len(),
                bits == xs@.map_values(|v: u8| spec_bit_of_u8(v)),
                acc@ == spec_byte_of_bits(bits, k as int),
            decreases 8 - k,
        {
            if k < n && xs[k] != 0 {
                acc = acc.set_bit(k as u8);
            }
            k += 1;
        }
        proof {
            lemma_byte_of_bits_pointwise(bits, 8);
            assert forall|offset: u8| offset < 8 implies spec_get_bit(acc@, offset) == (if offset
                < xs@.len() {
                spec_bit_of_u8(xs@[offset as int])
            } else {
                Bit::Zero
            }) by {
                assert(bits.len() == xs@.len());
                assert(spec_bit_set(acc@, offset) == (offset < bits.len() && bits[offset as int]
                    == Bit::One));
                if (offset as int) < xs@.len() {
                    assert(bits[offset as int] == spec_bit_of_u8(xs@[offset as int]));
                }
            }
        }
        acc
    }

    /// A restartable pass over the eight bits, in offset order `0..=7`.
    pub fn iter(&self) -> (r: Iter)
        ensures
            r.byte == *self,
            r.crnt == 0,
    {
        Iter { byte: *self, crnt: 0 }
    }

    /// A consuming pass over the eight bits, in offset order `0..=7`.
    pub fn into_iter(self) -> (r: Iter)
        ensures
            r.byte == self,
            r.crnt == 0,
    {
        Iter { byte: self, crnt: 0 }
    }
}

/// A pass over the eight bits of a byte, yielding [`Bit`] values in offset
/// order.
pub struct Iter {
    /// The byte being read.
    pub byte: Byte,
    /// The next offset to read; the pass is over once it exceeds 7.
    pub crnt: u8,
}

impl Iter {
    /// Yields the bit at the current offset and moves one offset forward, or
    /// `None` once all eight bits have been yielded.
    pub fn next(&mut self) -> (r: Option<Bit>)
        ensures
            final(self).byte == old(self).byte,
            old(self).crnt > 7 ==> r is None && final(self).crnt == old(self).crnt,
            old(self).crnt <= 7 ==> r == Some(spec_get_bit(old(self).byte@, old(self).crnt))
                && final(self).crnt == old(self).crnt + 1,
    {
        if self.crnt > 7 {
            None
        } else {
            let res = self.byte.get_bit(self.crnt);
            self.crnt += 1;
            Some(res)
        }
    }
}

impl From<u8> for Byte {
    /// Identity embedding of the raw value.
    fn from(value: u8) -> (r: Byte) {
        Byte(value)
    }
}

impl vstd::std_specs::convert::FromSpecImpl<u8> for Byte {
    open spec fn obeys_from_spec() -> bool {
        true
    }

    open spec fn from_spec(value: u8) -> Byte {
        Byte(value)
    }
}

impl From<Byte> for u8 {
    /// Inverse of the identity embedding: the raw value back.
    fn from(byte: Byte) -> (r: u8) {
        byte.0
    }
}

impl vstd::std_specs::convert::FromSpecImpl<Byte> for u8 {
    open spec fn obeys_from_spec() -> bool {
        true
    }

    open spec fn from_spec(byte: Byte) -> u8 {
        byte.0
    }
}

} // verus!
