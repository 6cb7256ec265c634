//! A bag that counts how many times each key was inserted, and how many
//! insertions happened in all.
//!
//! Contracts that depend on comparing keys are stated under
//! [`obeys_concrete_eq`]: the key type's `==` agrees with structural
//! equality, as it does for the integer and boolean types.

use vstd::laws_eq::obeys_concrete_eq;
use vstd::prelude::*;

verus! {

/// The index of the first entry whose key equals `k`, or -1 when no entry's
/// key does.
pub open spec fn spec_key_index<K, V>(s: Seq<(K, V)>, k: K) -> int
    decreases s.len(),
{
    if s.len() == 0 {
        -1
    } else if s[0].0 == k {
        0
    } else {
        let rest = spec_key_index(s.skip(1), k);
        if rest < 0 {
            -1
        } else {
            1 + rest
        }
    }
}

/// The count recorded for `k`, or `None` when `k` has no entry.
pub open spec fn spec_get<K>(s: Seq<(K, u32)>, k: K) -> Option<u32> {
    let i = spec_key_index(s, k);
    if i >= 0 {
        Some(s[i].1)
    } else {
        None
    }
}

/// One more occurrence of `k`: bumps the first entry with that key, or
/// appends a fresh entry with count 1.
pub open spec fn spec_insert_key<K>(s: Seq<(K, u32)>, k: K) -> Seq<(K, u32)> {
    let i = spec_key_index(s, k);
    if i >= 0 {
        s.update(i, (s[i].0, (s[i].1 + 1) as u32))
    } else {
        s.push((k, 1u32))
    }
}

/// The sum of all counts in an entry sequence.
pub open spec fn spec_count_total<K>(s: Seq<(K, u32)>) -> int
    decreases s.len(),
{
    if s.len() == 0 {
        0
    } else {
        spec_count_total(s.drop_last()) + s.last().1
    }
}

/// What `spec_key_index` finds is the first match: a nonnegative result is a
/// matching index with no match before it, and -1 means no entry matches.
pub proof fn lemma_key_index_spec<K, V>(s: Seq<(K, V)>, k: K)
    ensures
        -1 <= spec_key_index(s, k) < s.len(),
        spec_key_index(s, k) >= 0 ==> s[spec_key_index(s, k)].0 == k,
        forall|t: int| 0 <= t < spec_key_index(s, k) ==> s[t].0 != k,
        spec_key_index(s, k) == -1 ==> forall|t: int| 0 <= t < s.len() ==> s[t].0 != k,
    decreases s.len(),
{
    if s.len() != 0 && s[0].0 != k {
        lemma_key_index_spec(s.skip(1), k);
        let rest = spec_key_index(s.skip(1), k);
        if rest >= 0 {
            assert(s.skip(1)[rest] == s[1 + rest]);
        }
        assert forall|t: int| 0 <= t < spec_key_index(s, k) implies s[t].0 != k by {
            if t > 0 {
                assert(s.skip(1)[t - 1] == s[t]);
            }
        }
        if spec_key_index(s, k) == -1 {
            assert forall|t: int| 0 <= t < s.len() implies s[t].0 != k by {
                if t > 0 {
                    assert(s.skip(1)[t - 1] == s[t]);
                }
            }
        }
    }
}

/// Every count in an entry sequence is at most the sum of all counts.
pub proof fn lemma_count_le_total<K>(s: Seq<(K, u32)>, t: int)
    requires
        0 <= t < s.len(),
    ensures
        s[t].1 <= spec_count_total(s),
        spec_count_total(s) >= 0,
    decreases s.len(),
{
    lemma_count_total_nonneg(s.drop_last());
    if t < s.len() - 1 {
        lemma_count_le_total(s.drop_last(), t);
    }
}

/// The sum of counts is never negative.
pub proof fn lemma_count_total_nonneg<K>(s: Seq<(K, u32)>)
    ensures
        spec_count_total(s) >= 0,
    decreases s.len(),
{
    if s.len() != 0 {
        lemma_count_total_nonneg(s.drop_last());
    }
}

/// Replacing one entry's count changes the sum by the difference.
proof fn lemma_count_total_update<K>(s: Seq<(K, u32)>, t: int, e: (K, u32))
    requires
        0 <= t < s.len(),
    ensures
        spec_count_total(s.update(t, e)) == spec_count_total(s) - s[t].1 + e.1,
    decreases s.len(),
{
    let u = s.update(t, e);
    assert(u.drop_last() =~= if t < s.len() - 1 {
        s.drop_last().update(t, e)
    } else {
        s.drop_last()
    });
    if t < s.len() - 1 {
        lemma_count_total_update(s.drop_last(), t, e);
    }
}

/// The bag reached by inserting each key of a sequence in order, starting
/// from the empty bag.
pub open spec fn spec_bag_of_keys<K>(keys: Seq<K>) -> Seq<(K, u32)>
    decreases keys.len(),
{
    if keys.len() == 0 {
        Seq::empty()
    } else {
        spec_insert_key(spec_bag_of_keys(keys.drop_last()), keys.last())
    }
}

/// `k` recorded with count `v`: overwrites the count of the first entry with
/// that key, or appends a fresh entry.
pub open spec fn spec_upsert<K>(s: Seq<(K, u32)>, k: K, v: u32) -> Seq<(K, u32)> {
    let i = spec_key_index(s, k);
    if i >= 0 {
        s.update(i, (s[i].0, v))
    } else {
        s.push((k, v))
    }
}

/// The bag reached by recording each (key, count) pair of a sequence in
/// order, later counts for a key overwriting earlier ones.
pub open spec fn spec_bag_of_pairs<K>(pairs: Seq<(K, u32)>) -> Seq<(K, u32)>
    decreases pairs.len(),
{
    if pairs.len() == 0 {
        Seq::empty()
    } else {
        spec_upsert(spec_bag_of_pairs(pairs.drop_last()), pairs.last().0, pairs.last().1)
    }
}

/// The entries of `s` whose key also occurs in `other`, each with the
/// smaller of the two counts, in `s`'s order.
pub open spec fn spec_intersection<K>(s: Seq<(K, u32)>, other: Seq<(K, u32)>) -> Seq<(K, u32)>
    decreases s.len(),
{
    if s.len() == 0 {
        Seq::empty()
    } else {
        let rest = spec_intersection(s.drop_last(), other);
        let e = s.last();
        let i = spec_key_index(other, e.0);
        if i >= 0 {
            rest.push(
                (
                    e.0,
                    if e.1 <= other[i].1 {
                        e.1
                    } else {
                        other[i].1
                    },
                ),
            )
        } else {
            rest
        }
    }
}

/// The sum of the counts of a prefix never exceeds the sum over the whole
/// sequence.
pub proof fn lemma_count_total_prefix<K>(s: Seq<(K, u32)>, m: int)
    requires
        0 <= m <= s.len(),
    ensures
        spec_count_total(s.subrange(0, m)) <= spec_count_total(s),
    decreases s.len() - m,
{
    if m == s.len() {
        assert(s.subrange(0, m) =~= s);
    } else {
        lemma_count_total_prefix(s, m + 1);
        assert(s.subrange(0, m + 1).drop_last() =~= s.subrange(0, m));
        assert(spec_count_total(s.subrange(0, m + 1)) == spec_count_total(s.subrange(0, m))
            + s[m].1);
    }
}

/// Stores, for each distinct key, how many times it occurred, as well as the
/// total number of occurrences over all keys.
pub struct CountedBag<K> {
    entries: Vec<(K, u32)>,
    total: u32,
}

impl<K> View for CountedBag<K> {
    type V = Seq<(K, u32)>;

    /// The entries, one per distinct key, in first-insertion order.
    closed spec fn view(&self) -> Seq<(K, u32)> {
        self.entries@
    }
}

impl<K: PartialEq> CountedBag<K> {
    /// Well-formedness: the stored total is the sum of the counts, and, when
    /// the key type's `==` is structural equality, no key has two entries.
    pub closed spec fn wf(&self) -> bool {
        &&& self.total as int == spec_count_total(self.entries@)
        &&& obeys_concrete_eq::<K>() ==> forall|i: int, j: int|
            0 <= i < j < self.entries@.len() ==> self.entries@[i].0 != self.entries@[j].0
    }

    /// Creates an empty bag.
    pub fn new() -> (r: CountedBag<K>)
        ensures
            r.wf(),
            r@ == Seq::<(K, u32)>::empty(),
    {
        let r = CountedBag { entries: Vec::new(), total: 0 };
        proof {
            assert(r.entries@ =~= Seq::<(K, u32)>::empty());
        }
        r
    }

    /// Returns the number of distinct keys in the bag.
    pub fn len(&self) -> (r: usize)
        ensures
            r == self@.len(),
    {
        self.entries.len()
    }

    /// Returns whether the bag holds no keys at all.
    pub fn is_empty(&self) -> (r: bool)
        ensures
            r == (self@.len() == 0),
    {
        self.entries.is_empty()
    }

    /// Returns the total number of occurrences over all keys.
    pub fn total(&self) -> (r: u32)
        requires
            self.wf(),
        ensures
            r == spec_count_total(self@),
    {
        self.total
    }
}

impl<K: PartialEq> CountedBag<K> {
    /// Finds the first entry whose key equals `k`.
    fn key_index(&self, k: &K) -> (r: Option<usize>)
        ensures
            r matches Some(t) ==> t < self@.len(),
            obeys_concrete_eq::<K>() ==> match r {
                Some(t) => t == spec_key_index(self@, *k),
                None => spec_key_index(self@, *k) == -1,
            },
    {
        let n = self.entries.len();
        let mut t: usize = 0;
        while t < n
            invariant
                t <= n,
                n == self@.len(),
                obeys_concrete_eq::<K>() ==> forall|u: int| 0 <= u < t ==> self@[u].0 != *k,
            decreases n - t,
        {
            let hit = self.entries[t].0 == *k;
            proof {
                reveal(vstd::laws_eq::obeys_concrete_eq);
                if obeys_concrete_eq::<K>() {
                    assert(hit == (self@[t as int].0 == *k));
                    if hit {
                        lemma_key_index_spec(self@, *k);
                    }
                }
            }
            if hit {
                return Some(t);
            }
            t += 1;
        }
        proof {
            if obeys_concrete_eq::<K>() {
                lemma_key_index_spec(self@, *k);
            }
        }
        None
    }

    /// Returns the number of occurrences recorded for `k`, or `None` when the
    /// key was never inserted.
    pub fn get(&self, k: &K) -> (r: Option<&u32>)
        ensures
            obeys_concrete_eq::<K>() ==> match r {
                Some(c) => spec_get(self@, *k) == Some(*c),
                None => spec_get(self@, *k) is None,
            },
    {
        match self.key_index(k) {
            Some(t) => Some(&self.entries[t].1),
            None => None,
        }
    }

    /// Records one more occurrence of `k` and returns how many occurrences
    /// the key now has.
    pub fn insert(&mut self, k: K) -> (r: u32)
        requires
            old(self).wf(),
            spec_count_total(old(self)@) < u32::MAX,
        ensures
            final(self).wf(),
            spec_count_total(final(self)@) == spec_count_total(old(self)@) + 1,
            obeys_concrete_eq::<K>() ==> final(self)@ == spec_insert_key(old(self)@, k)
                && r as int == (match spec_get(old(self)@, k) {
                Some(c) => c + 1,
                None => 1,
            }),
    {
        self.total = self.total + 1;
        match self.key_index(&k) {
            Some(t) => {
                proof {
                    lemma_count_le_total(self@, t as int);
                    lemma_count_total_update(
                        self@,
                        t as int,
                        (self@[t as int].0, (self@[t as int].1 + 1) as u32),
                    );
                    if obeys_concrete_eq::<K>() {
                        lemma_key_index_spec(self@, k);
                    }
                }
                let c = self.entries[t].1;
                self.entries[t].1 = c + 1;
                proof {
                    let s = old(self)@;
                    assert(self.entries@ =~= s.update(
                        t as int,
                        (s[t as int].0, (s[t as int].1 + 1) as u32),
                    ));
                    assert(spec_count_total(self@) == spec_count_total(s) + 1);
                    assert forall|i: int| 0 <= i < self@.len() implies self@[i].0 == s[i].0 by {}
                }
                c + 1
            },
            None => {
                self.entries.push((k, 1));
                proof {
                    let s = old(self)@;
                    assert(self@ == s.push((k, 1u32)));
                    assert(self@.drop_last() =~= s);
                    assert(spec_count_total(self@) == spec_count_total(s) + 1);
                    if obeys_concrete_eq::<K>() {
                        lemma_key_index_spec(s, k);
                    }
                }
                1
            },
        }
    }

    /// Records `k` with count `v` outright, overwriting any earlier count.
    fn upsert(&mut self, k: K, v: u32)
        requires
            old(self).wf(),
            spec_count_total(old(self)@) + v <= u32::MAX,
        ensures
            final(self).wf(),
            spec_count_total(final(self)@) <= spec_count_total(old(self)@) + v,
            obeys_concrete_eq::<K>() ==> final(self)@ == spec_upsert(old(self)@, k, v),
    {
        match self.key_index(&k) {
            Some(t) => {
                proof {
                    lemma_count_le_total(self@, t as int);
                    lemma_count_total_update(self@, t as int, (self@[t as int].0, v));
                }
                let old_c = self.entries[t].1;
                self.total = self.total - old_c + v;
                self.entries[t].1 = v;
                proof {
                    let s = old(self)@;
                    assert(self.entries@ =~= s.update(t as int, (s[t as int].0, v)));
                    assert forall|i: int| 0 <= i < self@.len() implies self@[i].0 == s[i].0 by {}
                }
            },
            None => {
                proof {
                    lemma_count_total_nonneg(self@);
                }
                self.total = self.total + v;
                self.entries.push((k, v));
                proof {
                    let s = old(self)@;
                    assert(self@ == s.push((k, v)));
                    assert(self@.drop_last() =~= s);
                    if obeys_concrete_eq::<K>() {
                        lemma_key_index_spec(s, k);
                    }
                }
            },
        }
    }
}

impl<K: PartialEq + Copy> CountedBag<K> {
    /// Builds a bag by inserting each key of the collection in order.
    pub fn from_keys(xs: Vec<K>) -> (r: CountedBag<K>)
        requires
            xs@.len() <= u32::MAX,
        ensures
            r.wf(),
            spec_count_total(r@) == xs@.len(),
            obeys_concrete_eq::<K>() ==> r@ == spec_bag_of_keys(xs@),
    {
        let mut r = CountedBag::new();
        let n = xs.len();
        let mut t: usize = 0;
        while t < n
            invariant
                t <= n,
                n == xs@.len() <= u32::MAX,
                r.wf(),
                spec_count_total(r@) == t,
                obeys_concrete_eq::<K>() ==> r@ == spec_bag_of_keys(xs@.subrange(0, t as int)),
            decreases n - t,
        {
            r.insert(xs[t]);
            t += 1;
            proof {
                assert(xs@.subrange(0, t as int).drop_last() =~= xs@.subrange(0, t - 1));
                assert(xs@.subrange(0, t as int).last() == xs@[t - 1]);
            }
        }
        proof {
            assert(xs@.subrange(0, n as int) =~= xs@);
        }
        r
    }

    /// Builds a bag from (key, count) pairs, a later pair for a key
    /// overwriting the count of an earlier one.
    pub fn from_iter(pairs: Vec<(K, u32)>) -> (r: CountedBag<K>)
        requires
            spec_count_total(pairs@) <= u32::MAX,
        ensures
            r.wf(),
            spec_count_total(r@) <= spec_count_total(pairs@),
            obeys_concrete_eq::<K>() ==> r@ == spec_bag_of_pairs(pairs@),
    {
        let mut r = CountedBag::new();
        let n = pairs.len();
        let mut t: usize = 0;
        while t < n
            invariant
                t <= n,
                n == pairs@.len(),
                spec_count_total(pairs@) <= u32::MAX,
                r.wf(),
                spec_count_total(r@) <= spec_count_total(pairs@.subrange(0, t as int)),
                obeys_concrete_eq::<K>() ==> r@ == spec_bag_of_pairs(pairs@.subrange(0, t as int)),
            decreases n - t,
        {
            proof {
                lemma_count_total_prefix(pairs@, t + 1);
                assert(pairs@.subrange(0, t + 1).drop_last() =~= pairs@.subrange(0, t as int));
                assert(spec_count_total(pairs@.subrange(0, t + 1)) == spec_count_total(
                    pairs@.subrange(0, t as int),
                ) + pairs@[t as int].1);
            }
            let (k, v) = pairs[t];
            r.upsert(k, v);
            t += 1;
        }
        proof {
            assert(pairs@.subrange(0, n as int) =~= pairs@);
        }
        r
    }

    /// Returns the distinct keys, in first-insertion order.
    pub fn keys(&self) -> (r: Vec<K>)
        ensures
            r@ == self@.map_values(|e: (K, u32)| e.0),
    {
        let n = self.entries.len();
        let mut r: Vec<K> = Vec::new();
        let mut t: usize = 0;
        while t < n
            invariant
                t <= n,
                n == self@.len(),
                r@ == self@.subrange(0, t as int).map_values(|e: (K, u32)| e.0),
            decreases n - t,
        {
            r.push(self.entries[t].0);
            t += 1;
            proof {
                assert(r@ =~= self@.subrange(0, t as int).map_values(|e: (K, u32)| e.0));
            }
        }
        proof {
            assert(self@.subrange(0, n as int) =~= self@);
        }
        r
    }

    /// A pass over the distinct keys and their counts, in first-insertion
    /// order.
    pub fn iter(&self) -> (r: Iter<K>)
        ensures
            r.pairs@ == self@,
            r.at == 0,
    {
        let n = self.entries.len();
        let mut pairs: Vec<(K, u32)> = Vec::new();
        let mut t: usize = 0;
        while t < n
            invariant
                t <= n,
                n == self@.len(),
                pairs@ == self@.subrange(0, t as int),
            decreases n - t,
        {
            pairs.push(self.entries[t]);
            t += 1;
            proof {
                assert(pairs@ =~= self@.subrange(0, t as int));
            }
        }
        proof {
            assert(self@.subrange(0, n as int) =~= self@);
        }
        Iter { pairs, at: 0 }
    }

    /// The entries common to both bags: the keys of the smaller bag (by
    /// number of distinct keys) that the other also holds, each with the
    /// smaller of the two counts.
    pub fn intersection(&self, other: &CountedBag<K>) -> (r: Intersection<K>)
        ensures
            r.at == 0,
            spec_count_total(r.pairs@) <= spec_count_total(self@) + spec_count_total(other@),
            obeys_concrete_eq::<K>() ==> r.pairs@ == (if self@.len() <= other@.len() {
                spec_intersection(self@, other@)
            } else {
                spec_intersection(other@, self@)
            }),
    {
        proof {
            lemma_count_total_nonneg(self@);
            lemma_count_total_nonneg(other@);
        }
        if self.entries.len() <= other.entries.len() {
            Intersection { pairs: intersection_pairs(self, other), at: 0 }
        } else {
            Intersection { pairs: intersection_pairs(other, self), at: 0 }
        }
    }
}

/// The common entries, walking `a`'s entries in order and looking each key
/// up in `b`.
fn intersection_pairs<K: PartialEq + Copy>(a: &CountedBag<K>, b: &CountedBag<K>) -> (r: Vec<
    (K, u32),
>)
    ensures
        spec_count_total(r@) <= spec_count_total(a@),
        obeys_concrete_eq::<K>() ==> r@ == spec_intersection(a@, b@),
{
    let n = a.entries.len();
    let mut r: Vec<(K, u32)> = Vec::new();
    let mut t: usize = 0;
    while t < n
        invariant
            t <= n,
            n == a@.len(),
            spec_count_total(r@) <= spec_count_total(a@.subrange(0, t as int)),
            obeys_concrete_eq::<K>() ==> r@ == spec_intersection(a@.subrange(0, t as int), b@),
        decreases n - t,
    {
        proof {
            assert(a@.subrange(0, t + 1).drop_last() =~= a@.subrange(0, t as int));
            assert(spec_count_total(a@.subrange(0, t + 1)) == spec_count_total(
                a@.subrange(0, t as int),
            ) + a@[t as int].1);
        }
        let e = a.entries[t];
        match b.key_index(&e.0) {
            Some(i) => {
                let cb = b.entries[i].1;
                let m = if e.1 <= cb {
                    e.1
                } else {
                    cb
                };
                let ghost prev = r@;
                r.push((e.0, m));
                proof {
                    assert(r@.drop_last() =~= prev);
                    assert(spec_count_total(r@) == spec_count_total(prev) + m);
                }
            },
            None => {},
        }
        t += 1;
        proof {
            assert(a@.subrange(0, t as int).last() == a@[t - 1]);
        }
    }
    proof {
        assert(a@.subrange(0, n as int) =~= a@);
        lemma_count_total_prefix(a@, n as int);
    }
    r
}

impl<K> CountedBag<K> {
    /// A consuming pass over the distinct keys and their counts, in
    /// first-insertion order.
    pub fn into_iter(self) -> (r: IntoIter<K>)
        ensures
            r.pairs@ == self@,
            r.at == 0,
    {
        IntoIter { pairs: self.entries, at: 0 }
    }
}

/// A pass over a bag's entries, yielding (key, count) pairs in
/// first-insertion order.
#[derive(Clone, Debug)]
pub struct Iter<K> {
    /// The entries still to be yielded, from `at` on.
    pub pairs: Vec<(K, u32)>,
    /// The index of the next entry to yield.
    pub at: usize,
}

impl<K: Copy> Iter<K> {
    /// Yields the next (key, count) pair, or `None` once all entries have
    /// been yielded.
    pub fn next(&mut self) -> (r: Option<(K, u32)>)
        ensures
            final(self).pairs == old(self).pairs,
            old(self).at >= old(self).pairs@.len() ==> r is None && final(self).at == old(self).at,
            old(self).at < old(self).pairs@.len() ==> r == Some(
                old(self).pairs@[old(self).at as int],
            ) && final(self).at == old(self).at + 1,
    {
        if self.at >= self.pairs.len() {
            None
        } else {
            let e = self.pairs[self.at];
            self.at += 1;
            Some(e)
        }
    }
}

/// A consuming pass over a bag's entries, yielding (key, count) pairs in
/// first-insertion order.
pub struct IntoIter<K> {
    /// The entries still to be yielded, from `at` on.
    pub pairs: Vec<(K, u32)>,
    /// The index of the next entry to yield.
    pub at: usize,
}

impl<K: Copy> IntoIter<K> {
    /// Yields the next (key, count) pair, or `None` once all entries have
    /// been yielded.
    pub fn next(&mut self) -> (r: Option<(K, u32)>)
        ensures
            final(self).pairs == old(self).pairs,
            old(self).at >= old(self).pairs@.len() ==> r is None && final(self).at == old(self).at,
            old(self).at < old(self).pairs@.len() ==> r == Some(
                old(self).pairs@[old(self).at as int],
            ) && final(self).at == old(self).at + 1,
    {
        if self.at >= self.pairs.len() {
            None
        } else {
            let e = self.pairs[self.at];
            self.at += 1;
            Some(e)
        }
    }
}

/// The entries in the intersection of two bags, as yielded pairwise by
/// [`CountedBag::intersection`].
#[derive(Clone)]
pub struct Intersection<K> {
    /// The common entries still to be yielded, from `at` on.
    pub pairs: Vec<(K, u32)>,
    /// The index of the next entry to yield.
    pub at: usize,
}

impl<K: Copy> Intersection<K> {
    /// Yields the next common (key, count) pair, or `None` once all have
    /// been yielded.
    pub fn next(&mut self) -> (r: Option<(K, u32)>)
        ensures
            final(self).pairs == old(self).pairs,
            old(self).at >= old(self).pairs@.len() ==> r is None && final(self).at == old(self).at,
            old(self).at < old(self).pairs@.len() ==> r == Some(
                old(self).pairs@[old(self).at as int],
            ) && final(self).at == old(self).at + 1,
    {
        if self.at >= self.pairs.len() {
            None
        } else {
            let e = self.pairs[self.at];
            self.at += 1;
            Some(e)
        }
    }
}

} // verus!
