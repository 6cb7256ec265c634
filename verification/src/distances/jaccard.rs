use crate::counted_bag::CountedBag;
use crate::counted_bag::lemma_count_total_prefix;
use crate::counted_bag::spec_count_total;
use crate::counted_bag::spec_intersection;
use vstd::laws_eq::obeys_concrete_eq;
use vstd::prelude::*;

verus! {

/// The Jaccard similarity of two counted bags, kept as an exact ratio: the
/// total of the common occurrences over the combined total of both bags.
pub struct JaccardSim {
    /// Total of the common occurrences: for each shared key, the smaller of
    /// the two counts.
    pub numer: u32,
    /// Combined total of both bags.
    pub denom: u32,
}

/// Returns the Jaccard index between two counted bags: the total of their
/// intersection over the sum of their totals.
pub fn jaccard<K: PartialEq + Copy>(first: &CountedBag<K>, second: &CountedBag<K>) -> (r:
    JaccardSim)
    requires
        first.wf(),
        second.wf(),
        spec_count_total(first@) + spec_count_total(second@) <= u32::MAX,
    ensures
        r.denom as int == spec_count_total(first@) + spec_count_total(second@),
        r.numer <= r.denom,
        obeys_concrete_eq::<K>() ==> r.numer as int == spec_count_total(
            if first@.len() <= second@.len() {
                spec_intersection(first@, second@)
            } else {
                spec_intersection(second@, first@)
            },
        ),
{
    let denom = first.total() + second.total();
    let inter = first.intersection(second);
    let ghost ip = inter.pairs@;
    let n = inter.pairs.len();
    let mut acc: u32 = 0;
    let mut t: usize = 0;
    while t < n
        invariant
            t <= n,
            n == ip.len(),
            ip == inter.pairs@,
            spec_count_total(ip) <= denom,
            denom as int == spec_count_total(first@) + spec_count_total(second@),
            acc == spec_count_total(ip.subrange(0, t as int)),
        decreases n - t,
    {
        proof {
            lemma_count_total_prefix(ip, t + 1);
            assert(ip.subrange(0, t + 1).drop_last() =~= ip.subrange(0, t as int));
            assert(spec_count_total(ip.subrange(0, t + 1)) == spec_count_total(
                ip.subrange(0, t as int),
            ) + ip[t as int].1);
        }
        acc = acc + inter.pairs[t].1;
        t += 1;
    }
    proof {
        assert(ip.subrange(0, n as int) =~= ip);
    }
    JaccardSim { numer: acc, denom }
}

} // verus!
