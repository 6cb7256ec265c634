//! A predicate-gated sliding window over a slice: each yielded window is
//! `size` consecutive elements, and a window may start only at an element
//! that the predicate accepts.

use vstd::prelude::*;
use vstd::slice::slice_subrange;

verus! {

/// A pass over the windows of a slice. Each call to [`Shingles::next`]
/// slides forward to the next element that the predicate accepts, yields the
/// window of `size` elements starting there, and resumes one element later.
pub struct Shingles<'a, T, P> {
    /// What is left of the slice; the next window starts at the first
    /// accepted element in it.
    pub slice: &'a [T],
    /// The window length; always at least one.
    pub size: usize,
    /// The predicate that decides where a window may start.
    pub is_start: P,
}

/// Builds the window pass over `slice` with windows of `size` elements that
/// start where `is_start` accepts.
pub fn shingles<'a, T, P>(slice: &'a [T], size: usize, is_start: P) -> (r: Shingles<'a, T, P>)
    requires
        size >= 1,
    ensures
        r.slice@ == slice@,
        r.size == size,
        r.is_start == is_start,
{
    Shingles { slice, size, is_start }
}

impl<'a, T, P: Fn(&T) -> bool> Shingles<'a, T, P> {
    /// Yields the window at the next accepted element, or `None` when too
    /// little of the slice is left for a whole window. Elements the predicate
    /// rejects are passed over for good.
    pub fn next(&mut self) -> (r: Option<&'a [T]>)
        requires
            old(self).size >= 1,
            forall|t: &T| call_requires(old(self).is_start, (t,)),
        ensures
            final(self).size == old(self).size,
            final(self).is_start == old(self).is_start,
            match r {
                Some(w) => exists|j: int|
                    {
                        &&& 0 <= j
                        &&& j + old(self).size <= old(self).slice@.len()
                        &&& w@ == old(self).slice@.subrange(j, j + old(self).size)
                        &&& final(self).slice@ == old(self).slice@.skip(j + 1)
                        &&& call_ensures(old(self).is_start, (&old(self).slice@[j],), true)
                        &&& forall|i: int|
                            0 <= i < j ==> call_ensures(
                                old(self).is_start,
                                (&old(self).slice@[i],),
                                false,
                            )
                    },
                None => {
                    &&& final(self).slice@.len() < old(self).size
                    &&& exists|j: int|
                        {
                            &&& 0 <= j <= old(self).slice@.len()
                            &&& final(self).slice@ == old(self).slice@.skip(j)
                            &&& forall|i: int|
                                0 <= i < j ==> call_ensures(
                                    old(self).is_start,
                                    (&old(self).slice@[i],),
                                    false,
                                )
                        }
                },
            },
    {
        proof {
            assert(old(self).slice@.skip(0) =~= old(self).slice@);
        }
        loop
            invariant
                self.size == old(self).size,
                self.size >= 1,
                self.is_start == old(self).is_start,
                forall|t: &T| call_requires(self.is_start, (t,)),
                exists|j: int|
                    {
                        &&& 0 <= j <= old(self).slice@.len()
                        &&& self.slice@ == old(self).slice@.skip(j)
                        &&& forall|i: int|
                            0 <= i < j ==> call_ensures(
                                self.is_start,
                                (&old(self).slice@[i],),
                                false,
                            )
                    },
            decreases self.slice@.len(),
        {
            let ghost j = choose|j: int|
                {
                    &&& 0 <= j <= old(self).slice@.len()
                    &&& self.slice@ == old(self).slice@.skip(j)
                    &&& forall|i: int|
                        0 <= i < j ==> call_ensures(self.is_start, (&old(self).slice@[i],), false)
                };
            if self.size > self.slice.len() {
                return None;
            }
            let accept = (self.is_start)(&self.slice[0]);
            proof {
                assert(self.slice@[0] == old(self).slice@[j]);
                assert(old(self).slice@.skip(j).skip(1) =~= old(self).slice@.skip(j + 1));
            }
            if accept {
                let ret = slice_subrange(self.slice, 0, self.size);
                proof {
                    assert(old(self).slice@.skip(j).subrange(0, self.size as int)
                        =~= old(self).slice@.subrange(j, j + self.size));
                }
                self.slice = slice_subrange(self.slice, 1, self.slice.len());
                proof {
                    assert(old(self).slice@.skip(j).subrange(
                        1,
                        old(self).slice@.skip(j).len() as int,
                    ) =~= old(self).slice@.skip(j).skip(1));
                }
                return Some(ret);
            } else {
                self.slice = slice_subrange(self.slice, 1, self.slice.len());
                proof {
                    assert(old(self).slice@.skip(j).subrange(
                        1,
                        old(self).slice@.skip(j).len() as int,
                    ) =~= old(self).slice@.skip(j).skip(1));
                }
            }
        }
    }
}

} // verus!
