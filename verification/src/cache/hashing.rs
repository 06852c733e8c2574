//! What the cache assumes of its keys and of the hasher, and the calls into
//! the standard library that depend on them.
use std::collections::HashMap;
use std::hash::BuildHasher;
use std::hash::Hash;
use vstd::laws_eq::obeys_concrete_eq;
use vstd::prelude::*;
use vstd::std_specs::hash::builds_valid_hashers;
use vstd::std_specs::hash::obeys_key_model;

verus! {

/// Cloning a `T` gives a value equal to the one cloned.
pub open spec fn clone_is_exact<T: Clone>() -> bool {
    forall|a: T, b: T| #[trigger] cloned(a, b) ==> a == b
}

/// What a key type `K` and a hasher type `S` must obey for the cache to keep
/// its index and its queues in step: a hash map keyed by `K` and hashed by
/// `S` behaves as a map, `==` on keys holds of equal keys only, and the
/// clone of a key equals the key.
pub open spec fn obeys_cache_key_model<K: Eq + Hash + Clone, S: BuildHasher>() -> bool {
    &&& obeys_key_model::<K>()
    &&& builds_valid_hashers::<S>()
    &&& obeys_concrete_eq::<K>()
    &&& clone_is_exact::<K>()
}

/// Every unsigned 64-bit key obeys the model under the standard library's
/// default hasher.
pub proof fn lemma_u64_obeys_cache_key_model()
    ensures
        obeys_cache_key_model::<u64, std::hash::RandomState>(),
{
    broadcast use vstd::std_specs::hash::group_hash_axioms;
    broadcast use vstd::laws_eq::group_laws_eq;
}

/// A copy of `key` that equals it.
pub fn clone_key<K: Clone>(key: &K) -> (copy: K)
    requires
        clone_is_exact::<K>(),
    ensures
        copy == *key,
{
    let copy = key.clone();
    assert(cloned(*key, copy));
    copy
}

/// `HashMap::with_hasher` of the standard library: an empty map that will
/// hash its keys with `hash_builder`.
#[verifier::external_body]
pub(crate) fn empty_map_with_hasher<K, V, S>(hash_builder: S) -> (map: HashMap<K, V, S>)
    ensures
        (map@ == Map::<K, V>::empty()),
{
    HashMap::with_hasher(hash_builder)
}

/// The hasher of the ahash crate, which a cache uses where the caller names
/// no other.
#[verifier::external_type_specification]
#[verifier::external_body]
pub struct ExRandomState(ahash::RandomState);

/// `RandomState::default` of the ahash crate: a hasher with keys that are
/// drawn at random, so nothing is claimed of the one that comes back.
#[verifier::external_body]
pub(crate) fn default_hasher() -> (hash_builder: ahash::RandomState) {
    ahash::RandomState::default()
}

/// `BuildHasher::hash_one` of the standard library: the hash of `value`
/// under `hash_builder`. A hasher draws its keys at random when it is made,
/// so nothing is claimed of the number that comes back.
#[verifier::external_body]
pub(crate) fn hash_one<S: BuildHasher, T: Hash>(hash_builder: &S, value: &T) -> (hash: u64) {
    hash_builder.hash_one(value)
}

} // verus!
