use crate::bits::Bit;
use crate::bits::Byte;
use crate::bits::Position;
use crate::bits::byte::lemma_zero_byte_clear;
use crate::bits::byte::spec_get_bit;
use vstd::arithmetic::div_mod::lemma_fundamental_div_mod;
use vstd::arithmetic::div_mod::lemma_fundamental_div_mod_converse;
use vstd::prelude::*;

verus! {

/// The bit stored at flat index `index` of a byte sequence: the byte at
/// `index / 8`, read at in-byte offset `index % 8`.
pub open spec fn spec_bit_at(bytes: Seq<u8>, index: int) -> Bit {
    spec_get_bit(bytes[index / 8], (index % 8) as u8)
}

/// A flat bit index below `8 * n` lands in byte `index / 8 < n`, at an
/// in-byte offset below 8.
proof fn lemma_bit_index_bounds(index: int, n: int)
    requires
        0 <= index,
        index < 8 * n,
    ensures
        0 <= index / 8 < n,
        0 <= index % 8 < 8,
{
    lemma_fundamental_div_mod(index, 8);
}

/// Distinct flat indices that land in the same byte land at distinct offsets.
proof fn lemma_same_byte_distinct_offsets(i: int, j: int)
    requires
        0 <= i,
        0 <= j,
        i != j,
        i / 8 == j / 8,
    ensures
        i % 8 != j % 8,
{
    lemma_fundamental_div_mod(i, 8);
    lemma_fundamental_div_mod(j, 8);
}

/// Replacing the byte that holds flat index `index` with a byte that agrees
/// on all other offsets changes the stored bit at `index` to the new byte's
/// bit there, and no stored bit anywhere else.
proof fn lemma_write_byte_view(bytes: Seq<u8>, index: int, nv: u8)
    requires
        0 <= index < bytes.len() * 8,
        forall|o: u8|
            o < 8 && o != (index % 8) as u8 ==> spec_get_bit(nv, o) == spec_get_bit(
                bytes[index / 8],
                o,
            ),
    ensures
        spec_bit_at(bytes.update(index / 8, nv), index) == spec_get_bit(nv, (index % 8) as u8),
        forall|j: int|
            0 <= j < bytes.len() * 8 && j != index ==> spec_bit_at(bytes.update(index / 8, nv), j)
                == spec_bit_at(bytes, j),
{
    lemma_bit_index_bounds(index, bytes.len() as int);
    let ub = bytes.update(index / 8, nv);
    assert forall|j: int| 0 <= j < bytes.len() * 8 && j != index implies spec_bit_at(ub, j)
        == spec_bit_at(bytes, j) by {
        lemma_bit_index_bounds(j, bytes.len() as int);
        if j / 8 == index / 8 {
            lemma_same_byte_distinct_offsets(j, index);
            assert(spec_get_bit(nv, (j % 8) as u8) == spec_get_bit(bytes[index / 8], (j % 8) as u8));
        } else {
            assert(ub[j / 8] == bytes[j / 8]);
        }
    }
}

/// A growable sequence of bits, stored eight to a byte. Each bit can be read
/// and written individually; the vector grows only by [`BVec::extend`].
pub struct BVec {
    vec: Vec<u8>,
    len: usize,
}

impl View for BVec {
    type V = Seq<Bit>;

    /// The logical content: the first `len` stored bits, in flat-index order.
    closed spec fn view(&self) -> Seq<Bit> {
        Seq::new(self.len as nat, |i: int| spec_bit_at(self.vec@, i))
    }
}

impl BVec {
    /// Well-formedness: the byte storage covers the logical length, and every
    /// stored bit past the logical length is clear.
    pub closed spec fn wf(&self) -> bool {
        &&& self.len <= self.vec@.len() * 8
        &&& forall|j: int|
            self.len <= j < self.vec@.len() * 8 ==> #[trigger] spec_bit_at(self.vec@, j)
                == Bit::Zero
    }

    /// The number of bytes currently allocated for storage.
    pub closed spec fn spec_storage_len(&self) -> nat {
        self.vec@.len()
    }

    /// Returns the logical length of the vector, in bits.
    pub fn len(&self) -> (r: usize)
        ensures
            r == self@.len(),
    {
        self.len
    }

    /// Returns the number of bytes backing the vector.
    pub fn storage_len(&self) -> (r: usize)
        ensures
            r == self.spec_storage_len(),
    {
        self.vec.len()
    }

    /// Returns the backing byte at `idx`: its offsets below the logical
    /// length read the corresponding bits, the rest read `Zero`.
    pub fn byte_at(&self, idx: usize) -> (r: u8)
        requires
            self.wf(),
            idx < self.spec_storage_len(),
        ensures
            forall|o: u8|
                o < 8 ==> spec_get_bit(r, o) == (if 8 * idx + o < self@.len() {
                    self@[8 * idx + o]
                } else {
                    Bit::Zero
                }),
    {
        let r = self.vec[idx];
        proof {
            assert forall|o: u8| o < 8 implies spec_get_bit(r, o) == (if 8 * idx + o < self@.len() {
                self@[8 * idx + o]
            } else {
                Bit::Zero
            }) by {
                let j = 8 * (idx as int) + o;
                lemma_fundamental_div_mod_converse(j, 8, idx as int, o as int);
                assert(spec_bit_at(self.vec@, j) == spec_get_bit(r, o));
            }
        }
        r
    }

    /// Creates a vector of `len` bits, all `Zero`, backed by the smallest
    /// number of zero-initialized bytes that holds them.
    pub fn with_length(len: usize) -> (r: BVec)
        ensures
            r.wf(),
            r@.len() == len,
            forall|i: int| 0 <= i < len ==> r@[i] == Bit::Zero,
            r.spec_storage_len() == len / 8 + (if len % 8 == 0 {
                0int
            } else {
                1int
            }),
    {
        let capacity = len / 8 + (if len % 8 == 0 {
            0
        } else {
            1
        });
        let mut vec: Vec<u8> = Vec::with_capacity(capacity);
        let mut k: usize = 0;
        while k < capacity
            invariant
                k <= capacity,
                vec@.len() == k,
                forall|t: int| 0 <= t < k ==> vec@[t] == 0u8,
            decreases capacity - k,
        {
            vec.push(0);
            k += 1;
        }
        proof {
            lemma_fundamental_div_mod(len as int, 8);
            assert forall|j: int| 0 <= j < capacity * 8 implies #[trigger] spec_bit_at(vec@, j)
                == Bit::Zero by {
                lemma_bit_index_bounds(j, capacity as int);
                lemma_zero_byte_clear((j % 8) as u8);
            }
        }
        BVec { vec, len }
    }

    /// Reads the bit at flat index `bit`.
    pub fn get_bit(&self, bit: usize) -> (r: Bit)
        requires
            self.wf(),
            bit < self@.len(),
        ensures
            r == self@[bit as int],
    {
        proof {
            lemma_bit_index_bounds(bit as int, self.vec@.len() as int);
        }
        let pos = Position::from_flat_index(bit);
        let byte = Byte(self.vec[pos.idx]);
        byte.get_bit(pos.bit)
    }

    /// Replaces the byte holding flat index `bit` with `nb`, which must agree
    /// with it at every other offset; the bit at `bit` becomes `nb`'s bit.
    fn store_bit(&mut self, bit: usize, nb: Byte)
        requires
            old(self).wf(),
            bit < old(self)@.len(),
            forall|o: u8|
                o < 8 && o != (bit as int % 8) as u8 ==> spec_get_bit(nb@, o) == spec_get_bit(
                    old(self).vec@[bit as int / 8],
                    o,
                ),
        ensures
            final(self).wf(),
            final(self)@ == old(self)@.update(
                bit as int,
                spec_get_bit(nb@, (bit as int % 8) as u8),
            ),
    {
        proof {
            lemma_bit_index_bounds(bit as int, self.vec@.len() as int);
        }
        let pos = Position::from_flat_index(bit);
        self.vec[pos.idx] = nb.0;
        proof {
            let ov = old(self).vec@;
            let i = bit as int;
            lemma_write_byte_view(ov, i, nb@);
            assert(self.vec@ == ov.update(i / 8, nb@));
            assert forall|j: int|
                self.len <= j < self.vec@.len() * 8 implies #[trigger] spec_bit_at(self.vec@, j)
                == Bit::Zero by {
                assert(spec_bit_at(self.vec@, j) == spec_bit_at(ov, j));
            }
            assert(self@ =~= old(self)@.update(i, spec_get_bit(nb@, (i % 8) as u8)));
        }
    }

    /// Forces the bit at flat index `bit` to `One`; no other bit changes.
    pub fn set_bit(&mut self, bit: usize)
        requires
            old(self).wf(),
            bit < old(self)@.len(),
        ensures
            final(self).wf(),
            final(self)@ == old(self)@.update(bit as int, Bit::One),
    {
        proof {
            lemma_bit_index_bounds(bit as int, self.vec@.len() as int);
        }
        let pos = Position::from_flat_index(bit);
        let byte = Byte(self.vec[pos.idx]);
        let nb = byte.set_bit(pos.bit);
        self.store_bit(bit, nb);
    }

    /// Forces the bit at flat index `bit` to `Zero`; no other bit changes.
    pub fn reset_bit(&mut self, bit: usize)
        requires
            old(self).wf(),
            bit < old(self)@.len(),
        ensures
            final(self).wf(),
            final(self)@ == old(self)@.update(bit as int, Bit::Zero),
    {
        proof {
            lemma_bit_index_bounds(bit as int, self.vec@.len() as int);
        }
        let pos = Position::from_flat_index(bit);
        let byte = Byte(self.vec[pos.idx]);
        let nb = byte.reset_bit(pos.bit);
        self.store_bit(bit, nb);
    }

    /// Flips the bit at flat index `bit`: what is read there inverts, and no
    /// other bit changes.
    pub fn toggle_bit(&mut self, bit: usize)
        requires
            old(self).wf(),
            bit < old(self)@.len(),
        ensures
            final(self).wf(),
            final(self)@ == old(self)@.update(
                bit as int,
                if old(self)@[bit as int] == Bit::One {
                    Bit::Zero
                } else {
                    Bit::One
                },
            ),
    {
        proof {
            lemma_bit_index_bounds(bit as int, self.vec@.len() as int);
        }
        let pos = Position::from_flat_index(bit);
        let byte = Byte(self.vec[pos.idx]);
        let nb = byte.toggle_bit(pos.bit);
        proof {
            assert(old(self)@[bit as int] == spec_get_bit(byte@, (bit as int % 8) as u8));
        }
        self.store_bit(bit, nb);
    }

    /// Appends eight zero-initialized bytes of storage; the logical content
    /// does not change and all new stored bits are clear.
    fn grow(&mut self)
        requires
            old(self).wf(),
        ensures
            final(self).wf(),
            final(self)@ == old(self)@,
            final(self).len == old(self).len,
            final(self).vec@.len() == old(self).vec@.len() + 8,
    {
        let ghost ov = self.vec@;
        let mut g: usize = 0;
        while g < 8
            invariant
                g <= 8,
                self.len == old(self).len,
                self.vec@.len() == ov.len() + g,
                forall|t: int| 0 <= t < ov.len() ==> self.vec@[t] == ov[t],
                forall|t: int| ov.len() <= t < self.vec@.len() ==> self.vec@[t] == 0u8,
            decreases 8 - g,
        {
            self.vec.push(0);
            g += 1;
        }
        proof {
            assert forall|j: int| 0 <= j < self.vec@.len() * 8 implies spec_bit_at(self.vec@, j)
                == (if j < ov.len() * 8 {
                spec_bit_at(ov, j)
            } else {
                Bit::Zero
            }) by {
                lemma_bit_index_bounds(j, self.vec@.len() as int);
                if j < ov.len() * 8 {
                    lemma_bit_index_bounds(j, ov.len() as int);
                    assert(self.vec@[j / 8] == ov[j / 8]);
                } else {
                    lemma_fundamental_div_mod(j, 8);
                    assert(j / 8 >= ov.len());
                    assert(self.vec@[j / 8] == 0u8);
                    lemma_zero_byte_clear((j % 8) as u8);
                }
            }
            assert(self@ =~= old(self)@);
        }
    }

    /// Appends the given bits in order, growing the logical length by one per
    /// appended bit. Storage grows in zero-initialized bursts whenever the
    /// next bit would not fit.
    pub fn extend(&mut self, values: &[Bit])
        requires
            old(self).wf(),
            old(self)@.len() + values@.len() <= usize::MAX,
        ensures
            final(self).wf(),
            final(self)@ == old(self)@ + values@,
    {
        let n = values.len();
        let mut k: usize = 0;
        while k < n
            invariant
                k <= n,
                n == values@.len(),
                old(self)@.len() + n <= usize::MAX,
                self.wf(),
                self@ == old(self)@ + values@.subrange(0, k as int),
            decreases n - k,
        {
            let ghost prev = self@;
            if self.len / 8 >= self.vec.len() {
                self.grow();
            }
            proof {
                lemma_fundamental_div_mod(self.len as int, 8);
                assert(self.len < self.vec@.len() * 8);
            }
            let pos = Position::from_flat_index(self.len);
            let ghost ov = self.vec@;
            let ghost i = self.len as int;
            if values[k] == Bit::One {
                let byte = Byte(self.vec[pos.idx]);
                let nb = byte.set_bit(pos.bit);
                self.vec[pos.idx] = nb.0;
                proof {
                    lemma_write_byte_view(ov, i, nb@);
                    assert(self.vec@ == ov.update(i / 8, nb@));
                    assert(spec_bit_at(self.vec@, i) == values@[k as int]);
                    assert(forall|j: int|
                        0 <= j < self.vec@.len() * 8 && j != i ==> spec_bit_at(self.vec@, j)
                            == spec_bit_at(ov, j));
                }
            } else {
                proof {
                    assert(spec_bit_at(self.vec@, i) == Bit::Zero);
                    assert(spec_bit_at(self.vec@, i) == values@[k as int]);
                    assert(forall|j: int|
                        0 <= j < self.vec@.len() * 8 && j != i ==> spec_bit_at(self.vec@, j)
                            == spec_bit_at(ov, j));
                }
            }
            self.len = self.len + 1;
            k += 1;
            proof {
                assert forall|t: int| 0 <= t < self@.len() implies self@[t] == (prev + seq![
                    values@[k - 1],
                ])[t] by {
                    if t < i {
                        assert(spec_bit_at(self.vec@, t) == spec_bit_at(ov, t));
                    }
                }
                assert(self@ =~= prev + seq![values@[k - 1]]);
                assert(values@.subrange(0, k as int) =~= values@.subrange(0, k - 1) + seq![
                    values@[k - 1],
                ]);
                assert(self@ =~= old(self)@ + values@.subrange(0, k as int));
                assert forall|j: int|
                    self.len <= j < self.vec@.len() * 8 implies #[trigger] spec_bit_at(self.vec@, j)
                    == Bit::Zero by {
                    assert(spec_bit_at(self.vec@, j) == spec_bit_at(ov, j));
                }
            }
        }
        proof {
            assert(values@.subrange(0, n as int) =~= values@);
        }
    }

    /// A consuming pass over the bits, in flat-index order.
    pub fn into_iter(self) -> (r: Iter)
        ensures
            r.bvec == self,
            r.current == 0,
    {
        Iter { bvec: self, current: 0 }
    }
}

/// A consuming pass over a bit vector, yielding its [`Bit`] values in
/// flat-index order.
pub struct Iter {
    /// The vector being read.
    pub bvec: BVec,
    /// The next flat index to read; the pass is over once it reaches the
    /// vector's length.
    pub current: usize,
}

impl Iter {
    /// Yields the bit at the current flat index and moves one forward, or
    /// `None` once all bits have been yielded.
    pub fn next(&mut self) -> (r: Option<Bit>)
        requires
            old(self).bvec.wf(),
        ensures
            final(self).bvec == old(self).bvec,
            old(self).current >= old(self).bvec@.len() ==> r is None && final(self).current == old(
                self,
            ).current,
            old(self).current < old(self).bvec@.len() ==> r == Some(
                old(self).bvec@[old(self).current as int],
            ) && final(self).current == old(self).current + 1,
    {
        if self.current >= self.bvec.len() {
            None
        } else {
            let bit = self.bvec.get_bit(self.current);
            self.current += 1;
            Some(bit)
        }
    }
}

} // verus!
