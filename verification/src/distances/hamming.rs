use vstd::laws_eq::obeys_concrete_eq;
use vstd::prelude::*;

verus! {

/// The number of index positions at which the two sides of a pair sequence
/// differ.
pub open spec fn spec_hamming<A>(s: Seq<(A, A)>) -> int
    decreases s.len(),
{
    if s.len() == 0 {
        0
    } else {
        spec_hamming(s.drop_last()) + if s.last().0 == s.last().1 {
            0int
        } else {
            1int
        }
    }
}

/// Returns the Hamming distance between two collections, given as the
/// sequence of their aligned pairs: the number of positions at which the two
/// sides differ.
pub fn hamming<A: PartialEq>(xys: &[(A, A)]) -> (r: usize)
    ensures
        r <= xys@.len(),
        obeys_concrete_eq::<A>() ==> r == spec_hamming(xys@),
{
    let n = xys.len();
    let mut count: usize = 0;
    let mut t: usize = 0;
    while t < n
        invariant
            t <= n,
            n == xys@.len(),
            count <= t,
            obeys_concrete_eq::<A>() ==> count == spec_hamming(xys@.subrange(0, t as int)),
        decreases n - t,
    {
        let same = xys[t].0 == xys[t].1;
        proof {
            reveal(vstd::laws_eq::obeys_concrete_eq);
            if obeys_concrete_eq::<A>() {
                assert(same == (xys@[t as int].0 == xys@[t as int].1));
            }
        }
        if !same {
            count += 1;
        }
        t += 1;
        proof {
            assert(xys@.subrange(0, t as int).drop_last() =~= xys@.subrange(0, t - 1));
            assert(xys@.subrange(0, t as int).last() == xys@[t - 1]);
        }
    }
    proof {
        assert(xys@.subrange(0, n as int) =~= xys@);
    }
    count
}

} // verus!
