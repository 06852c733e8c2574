//! A hash table with one slot per bucket that forgets on collision.
use crate::cache::hashing::hash_one;
use std::hash::BuildHasher;
use std::hash::Hash;
use vstd::laws_eq::obeys_concrete_eq;
use vstd::prelude::*;

verus! {

/// The bucket that a hash falls into in a table of `capacity` buckets: the
/// hash modulo `capacity - 1`, or modulo 1 where that is less than 1.
pub open spec fn bucket_index(hash: u64, capacity: int) -> int {
    (hash as usize) as int % (if capacity > 2 {
        capacity - 1
    } else {
        1
    })
}

/// The buckets after `value` was put in with the given hash: it takes the
/// place of whatever its bucket held. A table without buckets stays empty.
pub open spec fn buckets_after_insert<T>(buckets: Seq<Option<T>>, hash: u64, value: T) -> Seq<
    Option<T>,
> {
    if buckets.len() == 0 {
        buckets
    } else {
        buckets.update(bucket_index(hash, buckets.len() as int), Some(value))
    }
}

/// Whether the bucket of the given hash holds `value`.
pub open spec fn bucket_holds<T>(buckets: Seq<Option<T>>, hash: u64, value: T) -> bool {
    buckets.len() > 0 && buckets[bucket_index(hash, buckets.len() as int)] == Some(value)
}

/// A set of a fixed number of buckets, each of which holds at most one item.
/// An item goes to the bucket that its hash picks and replaces what was
/// there, so the table may forget an item, but it never reports one that was
/// not put in.
pub struct FixedSizeHashTable<T, S = ahash::RandomState> {
    pub hash_builder: S,
    pub buckets: Vec<Option<T>>,
}

impl<T, S> View for FixedSizeHashTable<T, S> {
    type V = Seq<Option<T>>;

    open spec fn view(&self) -> Seq<Option<T>> {
        self.buckets@
    }
}

impl<T, S> FixedSizeHashTable<T, S> where S: BuildHasher + Clone {
    /// A table of `capacity` empty buckets.
    pub fn with_capacity_and_hasher(capacity: usize, hash_builder: S) -> (table: Self)
        ensures
            table@ == Seq::<Option<T>>::new(capacity as nat, |i: int| None),
    {
        let mut buckets: Vec<Option<T>> = Vec::with_capacity(capacity);
        let mut filled: usize = 0;
        while filled < capacity
            invariant
                filled <= capacity,
                buckets@.len() == filled,
                forall|i: int| 0 <= i < filled ==> (#[trigger] buckets@[i]) is None,
            decreases capacity - filled,
        {
            buckets.push(None);
            filled += 1;
        }
        Self { hash_builder, buckets }
    }
}

impl<T, S> FixedSizeHashTable<T, S> where T: Eq + Hash, S: BuildHasher {
    /// Puts `value` into the bucket that its hash picks.
    pub fn insert(&mut self, value: T)
        ensures
            exists|hash: u64|
                final(self)@ == #[trigger] buckets_after_insert(old(self)@, hash, value),
            final(self)@.len() == old(self)@.len(),
    {
        if self.buckets.len() == 0 {
            assert(self@ == buckets_after_insert(self@, 0, value));
            return ;
        }
        let hash = hash_one(&self.hash_builder, &value);
        self.insert_hashed(hash, value);
    }

    /// Whether the bucket that the hash of `value` picks holds `value`.
    pub fn contains(&self, value: &T) -> (found: bool)
        ensures
            obeys_concrete_eq::<T>() ==> exists|hash: u64|
                found == #[trigger] bucket_holds(self@, hash, *value),
            obeys_concrete_eq::<T>() && found ==> self@.contains(Some(*value)),
    {
        if self.buckets.len() == 0 {
            assert(!bucket_holds(self@, 0, *value));
            return false;
        }
        let hash = hash_one(&self.hash_builder, value);
        self.contains_hashed(hash, value)
    }

    /// Puts `value` into the bucket of the given hash.
    pub fn insert_hashed(&mut self, hash: u64, value: T)
        ensures
            final(self)@ == buckets_after_insert(old(self)@, hash, value),
    {
        if self.buckets.len() == 0 {
            return ;
        }
        let bucket_idx = self.get_bucket_index(hash);
        self.buckets[bucket_idx] = Some(value);
    }

    /// Whether the bucket of the given hash holds `value`.
    pub fn contains_hashed(&self, hash: u64, value: &T) -> (found: bool)
        ensures
            obeys_concrete_eq::<T>() ==> found == bucket_holds(self@, hash, *value),
    {
        if self.buckets.len() == 0 {
            return false;
        }
        let bucket_idx = self.get_bucket_index(hash);
        match &self.buckets[bucket_idx] {
            Some(item) => {
                proof {
                    reveal(obeys_concrete_eq);
                }
                *item == *value
            },
            None => false,
        }
    }

    /// The bucket that `hash` picks.
    pub fn get_bucket_index(&self, hash: u64) -> (bucket_idx: usize)
        ensures
            bucket_idx == bucket_index(hash, self@.len() as int),
            self@.len() >= 1 ==> bucket_idx < self@.len(),
    {
        let capacity = self.buckets.len();
        let modulus = if capacity > 2 {
            capacity - 1
        } else {
            1
        };
        hash as usize % modulus
    }
}

} // verus!
