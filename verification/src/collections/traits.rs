use vstd::prelude::*;

verus! {

/// A collection that can be built from a sequence of keys, inserted in
/// order. Each implementation states, through the two spec functions, which
/// key sequences it accepts and what collection they build.
pub trait FromKeys<K>: Sized {
    /// Which key sequences the construction accepts.
    spec fn from_keys_pre(keys: Seq<K>) -> bool;

    /// What holds of the collection built from the given keys.
    spec fn from_keys_post(keys: Seq<K>, r: Self) -> bool;

    /// Builds the collection by inserting each key in order.
    fn from_keys(keys: Vec<K>) -> (r: Self)
        requires
            Self::from_keys_pre(keys@),
        ensures
            Self::from_keys_post(keys@, r),
    ;
}

/// A collection that can be built from a sequence of (key, value) pairs,
/// recorded in order. Each implementation states, through the two spec
/// functions, which pair sequences it accepts and what collection they build.
pub trait FromKeysAndValues<K, V>: Sized {
    /// Which pair sequences the construction accepts.
    spec fn from_keys_and_values_pre(pairs: Seq<(K, V)>) -> bool;

    /// What holds of the collection built from the given pairs.
    spec fn from_keys_and_values_post(pairs: Seq<(K, V)>, r: Self) -> bool;

    /// Builds the collection by recording each (key, value) pair in order.
    fn from_keys_and_values(pairs: Vec<(K, V)>) -> (r: Self)
        requires
            Self::from_keys_and_values_pre(pairs@),
        ensures
            Self::from_keys_and_values_post(pairs@, r),
    ;
}

} // verus!
