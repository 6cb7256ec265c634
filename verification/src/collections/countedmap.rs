//! A map from keys to signed counts that also tracks a running total of
//! everything added to it.
//!
//! Contracts that depend on comparing keys are stated under
//! [`obeys_concrete_eq`]: the key type's `==` agrees with structural
//! equality, as it does for the integer and boolean types.

use crate::collections::traits::FromKeys;
use crate::collections::traits::FromKeysAndValues;
use crate::counted_bag::lemma_key_index_spec;
use crate::counted_bag::spec_key_index;
use vstd::laws_eq::obeys_concrete_eq;
use vstd::prelude::*;

verus! {

/// The sum of all values in an entry sequence.
pub open spec fn spec_value_total<K>(s: Seq<(K, i32)>) -> int
    decreases s.len(),
{
    if s.len() == 0 {
        0
    } else {
        spec_value_total(s.drop_last()) + s.last().1
    }
}

/// Whether every value in an entry sequence is nonnegative.
pub open spec fn spec_values_nonneg<K>(s: Seq<(K, i32)>) -> bool {
    forall|t: int| 0 <= t < s.len() ==> #[trigger] s[t].1 >= 0
}

/// The value recorded for `k`, or `None` when `k` has no entry.
pub open spec fn spec_get_value<K>(s: Seq<(K, i32)>, k: K) -> Option<i32> {
    let i = spec_key_index(s, k);
    if i >= 0 {
        Some(s[i].1)
    } else {
        None
    }
}

/// One more occurrence of `k`: bumps the first entry with that key, or
/// appends a fresh entry with count 1.
pub open spec fn spec_map_insert_key<K>(s: Seq<(K, i32)>, k: K) -> Seq<(K, i32)> {
    let i = spec_key_index(s, k);
    if i >= 0 {
        s.update(i, (s[i].0, (s[i].1 + 1) as i32))
    } else {
        s.push((k, 1i32))
    }
}

/// `k` recorded with value `v` only when no entry holds that key yet; an
/// existing entry keeps its value.
pub open spec fn spec_or_insert<K>(s: Seq<(K, i32)>, k: K, v: i32) -> Seq<(K, i32)> {
    if spec_key_index(s, k) >= 0 {
        s
    } else {
        s.push((k, v))
    }
}

/// The map reached by inserting each key of a sequence in order, starting
/// from the empty map.
pub open spec fn spec_map_of_keys<K>(keys: Seq<K>) -> Seq<(K, i32)>
    decreases keys.len(),
{
    if keys.len() == 0 {
        Seq::empty()
    } else {
        spec_map_insert_key(spec_map_of_keys(keys.drop_last()), keys.last())
    }
}

/// The map reached by recording each (key, value) pair of a sequence in
/// order; a later pair for an already-present key leaves its value alone.
pub open spec fn spec_map_of_pairs<K>(pairs: Seq<(K, i32)>) -> Seq<(K, i32)>
    decreases pairs.len(),
{
    if pairs.len() == 0 {
        Seq::empty()
    } else {
        spec_or_insert(spec_map_of_pairs(pairs.drop_last()), pairs.last().0, pairs.last().1)
    }
}

/// The common part of two maps, walking `other`'s entries in order: each key
/// of `other` that `s` also holds is recorded with the smaller of the two
/// values.
pub open spec fn spec_common<K>(s: Seq<(K, i32)>, other: Seq<(K, i32)>) -> Seq<(K, i32)>
    decreases other.len(),
{
    if other.len() == 0 {
        Seq::empty()
    } else {
        let rest = spec_common(s, other.drop_last());
        let e = other.last();
        let i = spec_key_index(s, e.0);
        if i >= 0 {
            spec_or_insert(
                rest,
                e.0,
                if s[i].1 <= e.1 {
                    s[i].1
                } else {
                    e.1
                },
            )
        } else {
            rest
        }
    }
}

/// The total carried along by the common-part walk: the sum of the smaller
/// values over all of `other`'s entries whose key `s` also holds.
pub open spec fn spec_common_total<K>(s: Seq<(K, i32)>, other: Seq<(K, i32)>) -> int
    decreases other.len(),
{
    if other.len() == 0 {
        0
    } else {
        let rest = spec_common_total(s, other.drop_last());
        let e = other.last();
        let i = spec_key_index(s, e.0);
        if i >= 0 {
            rest + if s[i].1 <= e.1 {
                s[i].1
            } else {
                e.1
            }
        } else {
            rest
        }
    }
}

/// When all values are nonnegative, every value is at most the sum.
pub proof fn lemma_value_le_total<K>(s: Seq<(K, i32)>, t: int)
    requires
        0 <= t < s.len(),
        spec_values_nonneg(s),
    ensures
        s[t].1 <= spec_value_total(s),
        spec_value_total(s) >= 0,
    decreases s.len(),
{
    assert(spec_values_nonneg(s.drop_last()));
    lemma_value_total_nonneg(s.drop_last());
    if t < s.len() - 1 {
        lemma_value_le_total(s.drop_last(), t);
    }
}

/// A sum of nonnegative values is nonnegative.
pub proof fn lemma_value_total_nonneg<K>(s: Seq<(K, i32)>)
    requires
        spec_values_nonneg(s),
    ensures
        spec_value_total(s) >= 0,
    decreases s.len(),
{
    if s.len() != 0 {
        assert(spec_values_nonneg(s.drop_last()));
        lemma_value_total_nonneg(s.drop_last());
    }
}

/// Replacing one entry changes the sum by the difference of the values.
proof fn lemma_value_total_update<K>(s: Seq<(K, i32)>, t: int, e: (K, i32))
    requires
        0 <= t < s.len(),
    ensures
        spec_value_total(s.update(t, e)) == spec_value_total(s) - s[t].1 + e.1,
    decreases s.len(),
{
    let u = s.update(t, e);
    assert(u.drop_last() =~= if t < s.len() - 1 {
        s.drop_last().update(t, e)
    } else {
        s.drop_last()
    });
    if t < s.len() - 1 {
        lemma_value_total_update(s.drop_last(), t, e);
    }
}

/// With nonnegative values, a prefix sum never exceeds the whole sum.
pub proof fn lemma_value_total_prefix<K>(s: Seq<(K, i32)>, m: int)
    requires
        0 <= m <= s.len(),
        spec_values_nonneg(s),
    ensures
        spec_value_total(s.subrange(0, m)) <= spec_value_total(s),
    decreases s.len() - m,
{
    if m == s.len() {
        assert(s.subrange(0, m) =~= s);
    } else {
        lemma_value_total_prefix(s, m + 1);
        assert(s.subrange(0, m + 1).drop_last() =~= s.subrange(0, m));
        assert(spec_value_total(s.subrange(0, m + 1)) == spec_value_total(s.subrange(0, m))
            + s[m].1);
    }
}

/// A map from keys to counts that also keeps a running total: inserting a
/// key adds one to it, and recording a (key, value) pair adds the value,
/// whether or not the key was already present.
#[derive(Debug)]
pub struct CountedMap<K> {
    base: Vec<(K, i32)>,
    ttl: i32,
}

impl<K> View for CountedMap<K> {
    type V = Seq<(K, i32)>;

    /// The entries, one per distinct key, in first-insertion order.
    closed spec fn view(&self) -> Seq<(K, i32)> {
        self.base@
    }
}

impl<K: PartialEq> CountedMap<K> {
    /// The running total.
    pub closed spec fn spec_total(&self) -> int {
        self.ttl as int
    }

    /// Well-formedness: all values are nonnegative, their sum is covered by
    /// the running total, and, when the key type's `==` is structural
    /// equality, no key has two entries.
    pub closed spec fn wf(&self) -> bool {
        &&& spec_values_nonneg(self.base@)
        &&& 0 <= spec_value_total(self.base@) <= self.ttl
        &&& obeys_concrete_eq::<K>() ==> forall|i: int, j: int|
            0 <= i < j < self.base@.len() ==> self.base@[i].0 != self.base@[j].0
    }

    /// Creates an empty map with a zero total.
    pub fn new() -> (r: CountedMap<K>)
        ensures
            r.wf(),
            r@ == Seq::<(K, i32)>::empty(),
            r.spec_total() == 0,
    {
        let r = CountedMap { base: Vec::new(), ttl: 0 };
        proof {
            assert(r.base@ =~= Seq::<(K, i32)>::empty());
        }
        r
    }

    /// Returns the number of distinct keys in the map.
    pub fn len(&self) -> (r: usize)
        ensures
            r == self@.len(),
    {
        self.base.len()
    }

    /// Returns whether the map holds no keys at all.
    pub fn is_empty(&self) -> (r: bool)
        ensures
            r == (self@.len() == 0),
    {
        self.base.is_empty()
    }

    /// Returns the running total.
    pub fn total(&self) -> (r: &i32)
        ensures
            *r == self.spec_total(),
    {
        &self.ttl
    }

    /// Returns the entries as (key, value) pairs, in first-insertion order.
    pub fn iter(&self) -> (r: Vec<(K, i32)>)
        where K: Copy,
        ensures
            r@ == self@,
    {
        let n = self.base.len();
        let mut r: Vec<(K, i32)> = Vec::new();
        let mut t: usize = 0;
        while t < n
            invariant
                t <= n,
                n == self@.len(),
                r@ == self@.subrange(0, t as int),
            decreases n - t,
        {
            r.push(self.base[t]);
            t += 1;
            proof {
                assert(r@ =~= self@.subrange(0, t as int));
            }
        }
        proof {
            assert(self@.subrange(0, n as int) =~= self@);
        }
        r
    }

    /// Finds the first entry whose key equals `k`.
    fn key_index(&self, k: &K) -> (r: Option<usize>)
        ensures
            r matches Some(t) ==> t < self@.len(),
            obeys_concrete_eq::<K>() ==> match r {
                Some(t) => t == spec_key_index(self@, *k),
                None => spec_key_index(self@, *k) == -1,
            },
    {
        let n = self.base.len();
        let mut t: usize = 0;
        while t < n
            invariant
                t <= n,
                n == self@.len(),
                obeys_concrete_eq::<K>() ==> forall|u: int| 0 <= u < t ==> self@[u].0 != *k,
            decreases n - t,
        {
            let hit = self.base[t].0 == *k;
            proof {
                reveal(vstd::laws_eq::obeys_concrete_eq);
                if obeys_concrete_eq::<K>() {
                    assert(hit == (self@[t as int].0 == *k));
                    if hit {
                        lemma_key_index_spec(self@, *k);
                    }
                }
            }
            if hit {
                return Some(t);
            }
            t += 1;
        }
        proof {
            if obeys_concrete_eq::<K>() {
                lemma_key_index_spec(self@, *k);
            }
        }
        None
    }

    /// Returns the value recorded for `k`, or `None` when the key is absent.
    pub fn get(&self, k: &K) -> (r: Option<&i32>)
        ensures
            obeys_concrete_eq::<K>() ==> match r {
                Some(v) => spec_get_value(self@, *k) == Some(*v),
                None => spec_get_value(self@, *k) is None,
            },
    {
        match self.key_index(k) {
            Some(t) => Some(&self.base[t].1),
            None => None,
        }
    }

    /// Records one more occurrence of `k`: adds one to both the key's count
    /// and the running total, and returns the key's new count.
    pub fn insert(&mut self, k: K) -> (r: Option<i32>)
        requires
            old(self).wf(),
            old(self).spec_total() < i32::MAX,
        ensures
            final(self).wf(),
            final(self).spec_total() == old(self).spec_total() + 1,
            r is Some,
            obeys_concrete_eq::<K>() ==> final(self)@ == spec_map_insert_key(old(self)@, k)
                && r == Some(
                (match spec_get_value(old(self)@, k) {
                    Some(c) => c + 1,
                    None => 1,
                }) as i32,
            ),
    {
        self.ttl = self.ttl + 1;
        match self.key_index(&k) {
            Some(t) => {
                proof {
                    lemma_value_le_total(self@, t as int);
                    lemma_value_total_update(
                        self@,
                        t as int,
                        (self@[t as int].0, (self@[t as int].1 + 1) as i32),
                    );
                    if obeys_concrete_eq::<K>() {
                        lemma_key_index_spec(self@, k);
                    }
                }
                let c = self.base[t].1;
                self.base[t].1 = c + 1;
                proof {
                    let s = old(self)@;
                    assert(self.base@ =~= s.update(
                        t as int,
                        (s[t as int].0, (s[t as int].1 + 1) as i32),
                    ));
                    assert forall|i: int| 0 <= i < self@.len() implies self@[i].0 == s[i].0 by {}
                }
                Some(c + 1)
            },
            None => {
                self.base.push((k, 1));
                proof {
                    let s = old(self)@;
                    assert(self@ == s.push((k, 1i32)));
                    assert(self@.drop_last() =~= s);
                    if obeys_concrete_eq::<K>() {
                        lemma_key_index_spec(s, k);
                    }
                }
                Some(1)
            },
        }
    }

    /// Records `k` with value `v`: the running total grows by `v` whether or
    /// not the key was present, while an existing entry keeps its value.
    fn insert_value(&mut self, k: K, v: i32)
        requires
            old(self).wf(),
            v >= 0,
            old(self).spec_total() + v <= i32::MAX,
        ensures
            final(self).wf(),
            final(self).spec_total() == old(self).spec_total() + v,
            obeys_concrete_eq::<K>() ==> final(self)@ == spec_or_insert(old(self)@, k, v),
    {
        self.ttl = self.ttl + v;
        match self.key_index(&k) {
            Some(_) => {
                proof {
                    if obeys_concrete_eq::<K>() {
                        lemma_key_index_spec(self@, k);
                    }
                }
            },
            None => {
                self.base.push((k, v));
                proof {
                    let s = old(self)@;
                    assert(self@ == s.push((k, v)));
                    assert(self@.drop_last() =~= s);
                    if obeys_concrete_eq::<K>() {
                        lemma_key_index_spec(s, k);
                    }
                }
            },
        }
    }
}

impl<K: PartialEq + Copy> CountedMap<K> {
    /// The common part of two maps: every key of `other` that `self` also
    /// holds, recorded with the smaller of the two values; the result's total
    /// is the sum of those smaller values.
    pub fn common(&self, other: &CountedMap<K>) -> (r: CountedMap<K>)
        requires
            self.wf(),
            other.wf(),
        ensures
            r.wf(),
            0 <= r.spec_total() <= other.spec_total(),
            obeys_concrete_eq::<K>() ==> r@ == spec_common(self@, other@) && r.spec_total()
                == spec_common_total(self@, other@),
    {
        let mut cmn = CountedMap::new();
        let n = other.base.len();
        let mut t: usize = 0;
        while t < n
            invariant
                t <= n,
                n == other@.len(),
                self.wf(),
                other.wf(),
                cmn.wf(),
                cmn.spec_total() <= spec_value_total(other@.subrange(0, t as int)),
                obeys_concrete_eq::<K>() ==> cmn@ == spec_common(self@, other@.subrange(0, t as int))
                    && cmn.spec_total() == spec_common_total(self@, other@.subrange(0, t as int)),
            decreases n - t,
        {
            proof {
                lemma_value_total_prefix(other@, t + 1);
                assert(other@.subrange(0, t + 1).drop_last() =~= other@.subrange(0, t as int));
                assert(spec_value_total(other@.subrange(0, t + 1)) == spec_value_total(
                    other@.subrange(0, t as int),
                ) + other@[t as int].1);
            }
            let e = other.base[t];
            match self.key_index(&e.0) {
                Some(i) => {
                    let vs = self.base[i].1;
                    let m = if vs <= e.1 {
                        vs
                    } else {
                        e.1
                    };
                    proof {
                        assert(other@[t as int].1 >= 0);
                        assert(self@[i as int].1 >= 0);
                    }
                    cmn.insert_value(e.0, m);
                },
                None => {},
            }
            t += 1;
        }
        proof {
            assert(other@.subrange(0, n as int) =~= other@);
        }
        cmn
    }
}

impl<K: PartialEq + Copy> FromKeys<K> for CountedMap<K> {
    /// The key sequence must be short enough for the total to fit.
    open spec fn from_keys_pre(keys: Seq<K>) -> bool {
        keys.len() <= i32::MAX
    }

    /// The total counts every key; under structural key equality the entries
    /// are exactly the fold of the insertions.
    open spec fn from_keys_post(keys: Seq<K>, r: CountedMap<K>) -> bool {
        &&& r.wf()
        &&& r.spec_total() == keys.len()
        &&& obeys_concrete_eq::<K>() ==> r@ == spec_map_of_keys(keys)
    }

    fn from_keys(keys: Vec<K>) -> (r: CountedMap<K>) {
        let mut r = CountedMap::new();
        let n = keys.len();
        let mut t: usize = 0;
        while t < n
            invariant
                t <= n,
                n == keys@.len() <= i32::MAX,
                r.wf(),
                r.spec_total() == t,
                obeys_concrete_eq::<K>() ==> r@ == spec_map_of_keys(keys@.subrange(0, t as int)),
            decreases n - t,
        {
            r.insert(keys[t]);
            t += 1;
            proof {
                assert(keys@.subrange(0, t as int).drop_last() =~= keys@.subrange(0, t - 1));
                assert(keys@.subrange(0, t as int).last() == keys@[t - 1]);
            }
        }
        proof {
            assert(keys@.subrange(0, n as int) =~= keys@);
        }
        r
    }
}

impl<K: PartialEq + Copy> FromKeysAndValues<K, i32> for CountedMap<K> {
    /// Values are occurrence counts: nonnegative, with a sum that fits.
    open spec fn from_keys_and_values_pre(pairs: Seq<(K, i32)>) -> bool {
        &&& spec_values_nonneg(pairs)
        &&& spec_value_total(pairs) <= i32::MAX
    }

    /// The total adds up every recorded value; under structural key equality
    /// the entries are exactly the fold of the recordings.
    open spec fn from_keys_and_values_post(pairs: Seq<(K, i32)>, r: CountedMap<K>) -> bool {
        &&& r.wf()
        &&& r.spec_total() == spec_value_total(pairs)
        &&& obeys_concrete_eq::<K>() ==> r@ == spec_map_of_pairs(pairs)
    }

    fn from_keys_and_values(pairs: Vec<(K, i32)>) -> (r: CountedMap<K>) {
        let mut r = CountedMap::new();
        let n = pairs.len();
        let mut t: usize = 0;
        while t < n
            invariant
                t <= n,
                n == pairs@.len(),
                spec_values_nonneg(pairs@),
                spec_value_total(pairs@) <= i32::MAX,
                r.wf(),
                r.spec_total() == spec_value_total(pairs@.subrange(0, t as int)),
                obeys_concrete_eq::<K>() ==> r@ == spec_map_of_pairs(pairs@.subrange(0, t as int)),
            decreases n - t,
        {
            proof {
                lemma_value_total_prefix(pairs@, t + 1);
                assert(pairs@.subrange(0, t + 1).drop_last() =~= pairs@.subrange(0, t as int));
                assert(spec_value_total(pairs@.subrange(0, t + 1)) == spec_value_total(
                    pairs@.subrange(0, t as int),
                ) + pairs@[t as int].1);
            }
            let (k, v) = pairs[t];
            r.insert_value(k, v);
            t += 1;
        }
        proof {
            assert(pairs@.subrange(0, n as int) =~= pairs@);
        }
        r
    }
}

} // verus!
