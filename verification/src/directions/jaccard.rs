//! Builder-style computation of the Jaccard similarity over counted maps:
//! name the two collections first, then compute the ratio's parts.

use crate::collections::CountedMap;
use crate::collections::FromKeys;
use crate::collections::FromKeysAndValues;
use crate::collections::countedmap::spec_common_total;
use crate::collections::countedmap::spec_map_of_keys;
use crate::collections::countedmap::spec_map_of_pairs;
use crate::collections::countedmap::spec_value_total;
use crate::collections::countedmap::spec_values_nonneg;
use vstd::laws_eq::obeys_concrete_eq;
use vstd::prelude::*;

verus! {

/// The Jaccard similarity as an exact ratio: the common total over the
/// combined total.
pub struct Jaccard {
    /// Total of the common part: for each shared key, the smaller of the two
    /// counts.
    pub cmn: i32,
    /// Combined total of both collections.
    pub ttl: i32,
}

/// A builder that, once both sides are named, computes a [`Jaccard`] ratio.
pub trait JaccardBulder {
    /// Whether both sides are present and small enough for the totals to fit.
    spec fn ready(&self) -> bool;

    /// What holds of the computed ratio.
    spec fn computed(&self, r: Jaccard) -> bool;

    /// Computes the Jaccard ratio from the two named collections.
    fn compute(self) -> (r: Jaccard)
        requires
            self.ready(),
        ensures
            self.computed(r),
    ;
}

/// A Jaccard computation fed by (key, count) pairs.
pub struct JaccardFromPairs<K> {
    /// The first collection's pairs.
    pub fst: Option<Vec<(K, i32)>>,
    /// The second collection's pairs, once named with `and_with`.
    pub snd: Option<Vec<(K, i32)>>,
}

/// A Jaccard computation fed by bare keys, each occurrence counting once.
pub struct JaccardFromKeys<K> {
    /// The first collection's keys.
    pub fst: Option<Vec<K>>,
    /// The second collection's keys, once named with `and_with`.
    pub snd: Option<Vec<K>>,
}

impl Jaccard {
    /// Starts a computation from the first collection's keys.
    pub fn from_keys<K>(xs: Vec<K>) -> (r: JaccardFromKeys<K>)
        ensures
            r.fst == Some(xs),
            r.snd is None,
    {
        JaccardFromKeys { fst: Some(xs), snd: None }
    }

    /// Starts a computation from the first collection's (key, count) pairs.
    pub fn from_pairs<K>(xs: Vec<(K, i32)>) -> (r: JaccardFromPairs<K>)
        ensures
            r.fst == Some(xs),
            r.snd is None,
    {
        JaccardFromPairs { fst: Some(xs), snd: None }
    }
}

impl<K> JaccardFromPairs<K> {
    /// Names the second collection's pairs.
    pub fn and_with(self, xs: Vec<(K, i32)>) -> (r: JaccardFromPairs<K>)
        ensures
            r.fst == self.fst,
            r.snd == Some(xs),
    {
        JaccardFromPairs { fst: self.fst, snd: Some(xs) }
    }
}

impl<K> JaccardFromKeys<K> {
    /// Names the second collection's keys.
    pub fn and_with(self, xs: Vec<K>) -> (r: JaccardFromKeys<K>)
        ensures
            r.fst == self.fst,
            r.snd == Some(xs),
    {
        JaccardFromKeys { fst: self.fst, snd: Some(xs) }
    }
}

impl<K: PartialEq + Copy> JaccardBulder for JaccardFromPairs<K> {
    /// Both sides are named; counts are nonnegative and their combined sum
    /// fits.
    open spec fn ready(&self) -> bool {
        &&& self.fst matches Some(a) && spec_values_nonneg(a@)
        &&& self.snd matches Some(b) && spec_values_nonneg(b@)
        &&& spec_value_total(self.fst.unwrap()@) + spec_value_total(self.snd.unwrap()@)
            <= i32::MAX
    }

    /// The combined total adds both sides' counts; under structural key
    /// equality the common total is the sum of the smaller counts over the
    /// shared keys.
    open spec fn computed(&self, r: Jaccard) -> bool {
        &&& r.ttl == spec_value_total(self.fst.unwrap()@) + spec_value_total(self.snd.unwrap()@)
        &&& 0 <= r.cmn
        &&& obeys_concrete_eq::<K>() ==> r.cmn == spec_common_total(
            spec_map_of_pairs(self.fst.unwrap()@),
            spec_map_of_pairs(self.snd.unwrap()@),
        )
    }

    fn compute(self) -> (r: Jaccard) {
        let (a, b) = match (self.fst, self.snd) {
            (Some(a), Some(b)) => (a, b),
            _ => {
                proof {
                    assert(false);
                }
                (Vec::new(), Vec::new())
            },
        };
        proof {
            assert(a == self.fst.unwrap());
            assert(b == self.snd.unwrap());
            crate::collections::countedmap::lemma_value_total_nonneg(a@);
            crate::collections::countedmap::lemma_value_total_nonneg(b@);
        }
        let fst = CountedMap::<K>::from_keys_and_values(a);
        let snd = CountedMap::<K>::from_keys_and_values(b);
        let ttl = *fst.total() + *snd.total();
        let cmn = *fst.common(&snd).total();
        proof {
            assert(ttl == spec_value_total(a@) + spec_value_total(b@));
            assert(0 <= cmn);
            if obeys_concrete_eq::<K>() {
                assert(fst@ == spec_map_of_pairs(a@));
                assert(snd@ == spec_map_of_pairs(b@));
                assert(cmn == spec_common_total(spec_map_of_pairs(a@), spec_map_of_pairs(b@)));
            }
        }
        Jaccard { cmn, ttl }
    }
}

impl<K: PartialEq + Copy> JaccardBulder for JaccardFromKeys<K> {
    /// Both sides are named and short enough for the combined total to fit.
    open spec fn ready(&self) -> bool {
        &&& self.fst is Some
        &&& self.snd is Some
        &&& self.fst.unwrap()@.len() + self.snd.unwrap()@.len() <= i32::MAX
    }

    /// The combined total counts every key of both sides; under structural
    /// key equality the common total is the sum of the smaller counts over
    /// the shared keys.
    open spec fn computed(&self, r: Jaccard) -> bool {
        &&& r.ttl == self.fst.unwrap()@.len() + self.snd.unwrap()@.len()
        &&& 0 <= r.cmn
        &&& obeys_concrete_eq::<K>() ==> r.cmn == spec_common_total(
            spec_map_of_keys(self.fst.unwrap()@),
            spec_map_of_keys(self.snd.unwrap()@),
        )
    }

    fn compute(self) -> (r: Jaccard) {
        let (a, b) = match (self.fst, self.snd) {
            (Some(a), Some(b)) => (a, b),
            _ => {
                proof {
                    assert(false);
                }
                (Vec::new(), Vec::new())
            },
        };
        proof {
            assert(a == self.fst.unwrap());
            assert(b == self.snd.unwrap());
        }
        let fst = CountedMap::<K>::from_keys(a);
        let snd = CountedMap::<K>::from_keys(b);
        let ttl = *fst.total() + *snd.total();
        let cmn = *fst.common(&snd).total();
        Jaccard { cmn, ttl }
    }
}

} // verus!
