//! Generation of every permutation of a slice of data, by repeated
//! in-place swaps.

use vstd::prelude::*;
use vstd::seq_lib::group_to_multiset_ensures;
use vstd::seq_lib::to_multiset_update;

verus! {

/// The factorial of `n`: how many permutations a sequence of `n` distinct
/// positions has.
pub open spec fn spec_factorial(n: nat) -> nat
    decreases n,
{
    if n == 0 {
        1
    } else {
        n * spec_factorial((n - 1) as nat)
    }
}

/// Law: swapping two positions of a sequence rearranges it, keeping exactly
/// the same elements with the same multiplicities.
pub proof fn lemma_swap_keeps_multiset<T>(s: Seq<T>, a: int, b: int)
    requires
        0 <= a < s.len(),
        0 <= b < s.len(),
    ensures
        s.update(a, s[b]).update(b, s[a]).to_multiset() == s.to_multiset(),
{
    broadcast use group_to_multiset_ensures;
    broadcast use to_multiset_update;
    broadcast use vstd::multiset::group_multiset_axioms;
    broadcast use vstd::multiset::group_multiset_properties;

    let s1 = s.update(a, s[b]);
    let s2 = s1.update(b, s[a]);
    if a == b {
        assert(s2 =~= s);
    } else {
        assert(s1[b] == s[b]);
        assert(s2.to_multiset() =~= s.to_multiset());
    }
}

/// The factorial is always positive: every length has at least one
/// arrangement.
pub proof fn lemma_factorial_pos(n: nat)
    ensures
        spec_factorial(n) >= 1,
    decreases n,
{
    if n > 0 {
        lemma_factorial_pos((n - 1) as nat);
        assert(n * spec_factorial((n - 1) as nat) >= spec_factorial((n - 1) as nat))
            by (nonlinear_arith)
            requires
                n >= 1 && spec_factorial((n - 1) as nat) >= 0,
        ;
    }
}

/// A generator for all permutations of a slice of data of a given length.
pub struct Permutations<T> {
    /// The length of the data.
    len: usize,
    /// The working copy of the data, permuted in place.
    arr: Vec<T>,
}

impl<T> View for Permutations<T> {
    type V = Seq<T>;

    /// The working copy's current arrangement.
    closed spec fn view(&self) -> Seq<T> {
        self.arr@
    }
}

impl<T> Permutations<T> {
    /// Well-formedness: the stated length is the data's length.
    pub closed spec fn wf(&self) -> bool {
        self.len == self.arr@.len()
    }

    /// Creates a permutation generator over the given data.
    pub fn new(len: usize, arr: Vec<T>) -> (r: Permutations<T>)
        requires
            len == arr@.len(),
        ensures
            r.wf(),
            r@ == arr@,
    {
        Permutations { arr, len }
    }
}

impl<T: Copy> Permutations<T> {
    /// Swaps the elements at `a` and `b`.
    fn swap(&mut self, a: usize, b: usize)
        requires
            old(self).wf(),
            a < old(self)@.len(),
            b < old(self)@.len(),
        ensures
            final(self).wf(),
            final(self)@ == old(self)@.update(a as int, old(self)@[b as int]).update(
                b as int,
                old(self)@[a as int],
            ),
            final(self)@.to_multiset() == old(self)@.to_multiset(),
    {
        proof {
            lemma_swap_keeps_multiset(self@, a as int, b as int);
        }
        let va = self.arr[a];
        let vb = self.arr[b];
        self.arr[a] = vb;
        self.arr[b] = va;
    }

    /// Copies the current arrangement out.
    fn to_result(&self) -> (r: Vec<T>)
        ensures
            r@ == self@,
    {
        let n = self.arr.len();
        let mut r: Vec<T> = Vec::new();
        let mut t: usize = 0;
        while t < n
            invariant
                t <= n,
                n == self@.len(),
                r@ == self@.subrange(0, t as int),
            decreases n - t,
        {
            r.push(self.arr[t]);
            t += 1;
            proof {
                assert(r@ =~= self@.subrange(0, t as int));
            }
        }
        proof {
            assert(self@.subrange(0, n as int) =~= self@);
        }
        r
    }

    /// Appends every arrangement of the first `k` elements (the rest left in
    /// place), one copy of the data per arrangement.
    fn permute(&mut self, k: usize, results: &mut Vec<Vec<T>>)
        requires
            old(self).wf(),
            k <= old(self)@.len(),
        ensures
            final(self).wf(),
            final(self)@.len() == old(self)@.len(),
            final(self)@.to_multiset() == old(self)@.to_multiset(),
            final(results)@.len() == old(results)@.len() + spec_factorial(k as nat),
            forall|p: int|
                0 <= p < old(results)@.len() ==> final(results)@[p] == old(results)@[p],
            forall|p: int|
                old(results)@.len() <= p < final(results)@.len() ==> (#[trigger] final(results)@[p])@.to_multiset()
                    == old(self)@.to_multiset(),
            final(results)@[old(results)@.len() as int]@ == old(self)@,
        decreases k,
    {
        if k <= 1 {
            let copy = self.to_result();
            results.push(copy);
            proof {
                assert(spec_factorial(0) == 1);
                assert(spec_factorial(1) == 1 * spec_factorial(0));
            }
        } else {
            let ghost entry = results@.len() as int;
            let ghost ms = self@.to_multiset();
            let mut i: usize = 0;
            while i < k - 1
                invariant
                    i <= k - 1,
                    1 < k <= self@.len(),
                    self.wf(),
                    self@.len() == old(self)@.len(),
                    self@.to_multiset() == ms,
                    ms == old(self)@.to_multiset(),
                    results@.len() == entry + i * spec_factorial((k - 1) as nat),
                    entry == old(results)@.len(),
                    forall|p: int| 0 <= p < entry ==> results@[p] == old(results)@[p],
                    forall|p: int|
                        entry <= p < results@.len() ==> (#[trigger] results@[p])@.to_multiset()
                            == ms,
                    i == 0 ==> self@ == old(self)@,
                    i > 0 ==> results@.len() > entry && results@[entry]@ == old(self)@,
                decreases k - 1 - i,
            {
                proof {
                    if i == 0 {
                        assert(i * spec_factorial((k - 1) as nat) == 0) by (nonlinear_arith)
                            requires
                                i == 0,
                        ;
                        assert(results@.len() == entry);
                    }
                }
                self.permute(k - 1, results);
                proof {
                    if i == 0 {
                        assert(results@[entry]@ == old(self)@);
                    }
                }
                if k % 2 == 0 {
                    self.swap(i, k - 1);
                } else {
                    self.swap(0, k - 1);
                }
                i += 1;
                proof {
                    lemma_factorial_pos((k - 1) as nat);
                    assert(i * spec_factorial((k - 1) as nat) == (i - 1) * spec_factorial(
                        (k - 1) as nat,
                    ) + spec_factorial((k - 1) as nat)) by (nonlinear_arith);
                    assert(i as int * spec_factorial((k - 1) as nat) >= 1) by (nonlinear_arith)
                        requires
                            i >= 1 && spec_factorial((k - 1) as nat) >= 1,
                    ;
                }
            }
            self.permute(k - 1, results);
            proof {
                assert(spec_factorial(k as nat) == k * spec_factorial((k - 1) as nat));
                assert((k - 1) as int * spec_factorial((k - 1) as nat) + spec_factorial(
                    (k - 1) as nat,
                ) == k * spec_factorial((k - 1) as nat)) by (nonlinear_arith);
            }
        }
    }

    /// Generates one copy of the data per arrangement of its elements:
    /// exactly `len!` results, each holding the same elements with the same
    /// multiplicities as the data itself.
    pub fn generate(&mut self) -> (r: Vec<Vec<T>>)
        requires
            old(self).wf(),
        ensures
            final(self).wf(),
            final(self)@.to_multiset() == old(self)@.to_multiset(),
            r@.len() == spec_factorial(old(self)@.len() as nat),
            r@[0]@ == old(self)@,
            forall|p: int|
                0 <= p < r@.len() ==> (#[trigger] r@[p])@.to_multiset()
                    == old(self)@.to_multiset(),
    {
        proof {
            lemma_factorial_pos(old(self)@.len() as nat);
        }
        let mut results: Vec<Vec<T>> = Vec::new();
        let k = self.len;
        self.permute(k, &mut results);
        results
    }
}

} // verus!
