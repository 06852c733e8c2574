//! The cache: a number of shards, and the rule that sends each key to one of
//! them.
pub mod cache_model;
pub mod entry;
pub mod fixed_size_hash_table;
pub mod hashing;
pub mod ring_buffer;
pub mod shard;
pub mod shard_laws;
pub mod shard_model;
pub mod stats;

use crate::cache::cache_model::lemma_shard_capacity_covers;
use crate::cache::cache_model::shard_capacity;
use crate::cache::cache_model::shard_count;
use crate::cache::cache_model::shard_of;
use crate::cache::cache_model::CacheView;
use crate::cache::hashing::default_hasher;
use crate::cache::hashing::hash_one;
use crate::cache::hashing::obeys_cache_key_model;
use crate::cache::shard::main_queue_capacity;
use crate::cache::shard::small_queue_capacity;
use crate::cache::shard::Shard;
use crate::cache::shard_model::ShardView;
use crate::cache::stats::CountersView;
use crate::cache::stats::Stats;
use std::hash::BuildHasher;
use std::hash::Hash;
use vstd::prelude::*;

verus! {

/// The number of shards of a cache for `capacity` entries on a machine that
/// runs `available_parallelism` threads at once.
pub fn number_of_shards(available_parallelism: usize, capacity: usize) -> (shards: usize)
    ensures
        shards == shard_count(available_parallelism as int, capacity as int),
{
    if available_parallelism > capacity / 4 {
        capacity
    } else {
        available_parallelism * 4
    }
}

/// The capacity of each of `number_of_shards` shards of a cache for
/// `capacity` entries.
pub fn capacity_per_shard(capacity: usize, number_of_shards: usize) -> (per_shard: usize)
    requires
        number_of_shards > 0,
    ensures
        per_shard == shard_capacity(capacity as int, number_of_shards as int),
{
    proof {
        lemma_shard_capacity_covers(capacity as int, number_of_shards as int);
    }
    if capacity % number_of_shards == 0 {
        capacity / number_of_shards
    } else {
        capacity / number_of_shards + 1
    }
}

/// The number of the shard that a key of the given hash belongs to, among
/// `number_of_shards` shards.
pub fn shard_index(hash: u64, number_of_shards: usize) -> (index: Option<usize>)
    ensures
        match index {
            Some(i) => shard_of(hash, number_of_shards as int) == Some(i as int) && i
                < number_of_shards,
            None => shard_of(hash, number_of_shards as int) is None,
        },
{
    let modulus = if number_of_shards > 2 {
        number_of_shards - 1
    } else {
        1
    };
    let shard_idx = hash as usize % modulus;
    if shard_idx < number_of_shards {
        Some(shard_idx)
    } else {
        None
    }
}

/// A bounded key-value cache. Its entries are spread over shards by the hash
/// of their keys; each shard holds its share in S3-FIFO order.
#[verifier::reject_recursive_types(S)]
pub struct Cache<K, V, S = ahash::RandomState> {
    hash_builder: S,
    shards: Vec<Shard<K, V, S>>,
}

impl<K, V, S> View for Cache<K, V, S> {
    type V = CacheView<K, V>;

    closed spec fn view(&self) -> CacheView<K, V> {
        CacheView { shards: Seq::new(self.shards@.len(), |i: int| self.shards@[i]@) }
    }
}

impl<K, V> Cache<K, V, ahash::RandomState> where K: Clone + Eq + Hash, V: Clone {
    /// Creates a new cache with at least the specified capacity, for a
    /// machine that runs `available_parallelism` threads at once.
    ///
    /// The actual capacity may be slightly higher due to sharding and
    /// rounding.
    pub fn with_capacity(capacity: usize, available_parallelism: usize) -> (cache: Self)
        requires
            obeys_cache_key_model::<K, ahash::RandomState>(),
        ensures
            cache.wf(),
            cache@ == CacheView::<K, V>::new(capacity as int, available_parallelism as int),
            cache@.counters() == CountersView::zero(),
    {
        Cache::with_capacity_and_hasher(capacity, available_parallelism, default_hasher())
    }
}

impl<K, V, S> Cache<K, V, S> where K: Clone + Eq + Hash, V: Clone, S: Clone + BuildHasher {
    /// Creates a new cache with at least the specified capacity, for a
    /// machine that runs `available_parallelism` threads at once, using
    /// `hash_builder` to hash the keys.
    ///
    /// The actual capacity may be slightly higher due to sharding and
    /// rounding.
    pub fn with_capacity_and_hasher(
        capacity: usize,
        available_parallelism: usize,
        hash_builder: S,
    ) -> (cache: Self)
        requires
            obeys_cache_key_model::<K, S>(),
        ensures
            cache.wf(),
            cache@ == CacheView::<K, V>::new(capacity as int, available_parallelism as int),
            cache@.counters() == CountersView::zero(),
    {
        proof {
            CacheView::<K, V>::lemma_new(capacity as int, available_parallelism as int);
        }
        let number_of_shards = number_of_shards(available_parallelism, capacity);
        let mut shards: Vec<Shard<K, V, S>> = Vec::with_capacity(number_of_shards);
        if number_of_shards == 0 {
            return Self { hash_builder, shards };
        }
        let capacity_per_shard = capacity_per_shard(capacity, number_of_shards);
        let mut built: usize = 0;
        while built < number_of_shards
            invariant
                obeys_cache_key_model::<K, S>(),
                built <= number_of_shards,
                shards@.len() == built,
                forall|i: int|
                    0 <= i < built ==> (#[trigger] shards@[i])@ == ShardView::<K, V>::empty(
                        small_queue_capacity(capacity_per_shard as int),
                        main_queue_capacity(capacity_per_shard as int),
                    ),
            decreases number_of_shards - built,
        {
            let shard = Shard::with_capacity_and_hasher(capacity_per_shard, hash_builder.clone());
            shards.push(shard);
            built += 1;
        }
        Self { hash_builder, shards }
    }
}

impl<K, V, S> Cache<K, V, S> where K: Clone + Eq + Hash, V: Clone, S: BuildHasher {
    /// The invariant of a cache: its keys and its hasher obey the key
    /// model, and each shard is well formed.
    pub open spec fn wf(&self) -> bool {
        obeys_cache_key_model::<K, S>() && self@.wf()
    }

    /// Inserts a key-value pair into the cache.
    ///
    /// If the cache did not have this key present, `None` is returned. If it
    /// did, the value is updated and the old value is returned. The key goes
    /// to the shard that its hash picks, where making room for it may evict
    /// other keys.
    pub fn insert(&mut self, key: K, value: V) -> (previous: Option<V>)
        requires
            old(self).wf(),
        ensures
            final(self).wf(),
            exists|hash: u64, key_hash: u64, retired_hash: u64|
                (final(self)@, previous) == #[trigger] old(self)@.insert(
                    hash,
                    key,
                    value,
                    key_hash,
                    retired_hash,
                ),
            final(self)@.capacity() == old(self)@.capacity(),
            final(self)@.live_entries() <= final(self)@.capacity(),
            final(self)@.counters().follows_by_insert(old(self)@.counters()),
    {
        let hash = hash_one(&self.hash_builder, &key);
        self.insert_hashed(hash, key, value)
    }

    /// Inserts a key-value pair into the shard that `hash` picks, and
    /// returns the value that the key had in that shard. Afterwards that
    /// shard holds the key with the value. The insert may evict other keys
    /// of that shard; it changes the value of none, and it leaves the other
    /// shards as they are.
    pub fn insert_hashed(&mut self, hash: u64, key: K, value: V) -> (previous: Option<V>)
        requires
            old(self).wf(),
        ensures
            final(self).wf(),
            exists|key_hash: u64, retired_hash: u64|
                (final(self)@, previous) == #[trigger] old(self)@.insert(
                    hash,
                    key,
                    value,
                    key_hash,
                    retired_hash,
                ),
            previous == old(self)@.stored(hash, key),
            old(self)@.shards.len() > 0 ==> final(self)@.stored(hash, key) == Some(value),
            forall|other_hash: u64, other: K|
                (other != key || shard_of(other_hash, old(self)@.shards.len() as int) != shard_of(
                    hash,
                    old(self)@.shards.len() as int,
                )) && (#[trigger] final(self)@.stored(other_hash, other)) is Some
                    ==> final(self)@.stored(other_hash, other) == old(self)@.stored(
                    other_hash,
                    other,
                ),
            final(self)@.capacity() == old(self)@.capacity(),
            final(self)@.live_entries() <= final(self)@.capacity(),
            final(self)@.counters().follows_by_insert(old(self)@.counters()),
    {
        let ghost mut key_hash = 0u64;
        let ghost mut retired_hash = 0u64;
        let previous = match shard_index(hash, self.shards.len()) {
            Some(shard_idx) => {
                let ghost before = self.shards@[shard_idx as int]@;
                let previous = self.shards[shard_idx].insert(key, value);
                proof {
                    let after = self.shards@[shard_idx as int]@;
                    let (first, second) = choose|first: u64, second: u64|
                        (after, previous) == #[trigger] before.insert(key, value, first, second);
                    key_hash = first;
                    retired_hash = second;
                    assert(self@.shards =~= old(self)@.shards.update(shard_idx as int, after));
                }
                previous
            },
            None => None,
        };
        proof {
            old(self)@.lemma_insert(hash, key, value, key_hash, retired_hash);
            self@.lemma_capacity_bound();
        }
        previous
    }

    /// Returns the value corresponding to the key.
    ///
    /// The value is cloned. A read counts as a hit or as a miss and, on a
    /// hit, as one more access of the entry; it changes neither the keys that
    /// the cache holds nor their values.
    pub fn get(&mut self, key: &K) -> (value: Option<V>)
        requires
            old(self).wf(),
        ensures
            final(self).wf(),
            exists|hash: u64|
                {
                    &&& final(self)@ == (#[trigger] old(self)@.get(hash, *key)).0
                    &&& match value {
                        Some(found) => old(self)@.stored(hash, *key) matches Some(held) && cloned(
                            held,
                            found,
                        ),
                        None => old(self)@.stored(hash, *key) is None,
                    }
                },
            forall|other_hash: u64, other: K|
                (#[trigger] final(self)@.stored(other_hash, other)) == old(self)@.stored(
                    other_hash,
                    other,
                ),
            final(self)@.capacity() == old(self)@.capacity(),
            final(self)@.counters().follows_by_read(old(self)@.counters()),
    {
        let hash = hash_one(&self.hash_builder, key);
        self.get_hashed(hash, key)
    }

    /// Returns a clone of the value that the shard that `hash` picks
    /// holds for the key. No shard holds another key or another value
    /// afterwards.
    pub fn get_hashed(&mut self, hash: u64, key: &K) -> (value: Option<V>)
        requires
            old(self).wf(),
        ensures
            final(self).wf(),
            final(self)@ == old(self)@.get(hash, *key).0,
            match value {
                Some(found) => old(self)@.stored(hash, *key) matches Some(held) && cloned(
                    held,
                    found,
                ),
                None => old(self)@.stored(hash, *key) is None,
            },
            forall|other_hash: u64, other: K|
                (#[trigger] final(self)@.stored(other_hash, other)) == old(self)@.stored(
                    other_hash,
                    other,
                ),
            final(self)@.capacity() == old(self)@.capacity(),
            final(self)@.counters().follows_by_read(old(self)@.counters()),
    {
        proof {
            old(self)@.lemma_get(hash, *key);
        }
        match shard_index(hash, self.shards.len()) {
            Some(shard_idx) => {
                let value = self.shards[shard_idx].get(key);
                proof {
                    let after = self.shards@[shard_idx as int]@;
                    assert(self@.shards =~= old(self)@.shards.update(shard_idx as int, after));
                }
                value
            },
            None => None,
        }
    }

    /// Whether the counters of the shards can be summed without leaving
    /// the range of a count.
    pub open spec fn countable(&self) -> bool {
        &&& self@.counters().hits <= u64::MAX
        &&& self@.counters().misses <= u64::MAX
        &&& self@.counters().evictions <= u64::MAX
    }

    /// Returns the hits, misses and evictions since the last call, summed
    /// over the shards, with `millis_elapsed` as the time since then, and
    /// sets the counters of every shard to 0: statistics taken right after
    /// count nothing.
    pub fn stats(&mut self, millis_elapsed: u128) -> (stats: Stats)
        requires
            old(self).wf(),
            old(self).countable(),
        ensures
            final(self).wf(),
            final(self)@ == old(self)@.reset_counters(),
            stats == (Stats {
                hit_count: old(self)@.counters().hits as u64,
                miss_count: old(self)@.counters().misses as u64,
                eviction_count: old(self)@.counters().evictions as u64,
                millis_elapsed,
            }),
            final(self)@.counters() == CountersView::zero(),
            final(self).countable(),
            forall|hash: u64, key: K|
                (#[trigger] final(self)@.stored(hash, key)) == old(self)@.stored(hash, key),
            final(self)@.capacity() == old(self)@.capacity(),
    {
        let mut stats = Stats::default();
        stats.millis_elapsed = millis_elapsed;
        let mut done: usize = 0;
        while done < self.shards.len()
            invariant
                old(self).countable(),
                done <= self.shards@.len(),
                self@.shards.len() == old(self)@.shards.len(),
                forall|i: int|
                    0 <= i < done ==> (#[trigger] self@.shards[i]) == old(
                        self,
                    )@.shards[i].reset_counters(),
                forall|i: int|
                    done <= i < self@.shards.len() ==> (#[trigger] self@.shards[i]) == old(
                        self,
                    )@.shards[i],
                stats == (Stats {
                    hit_count: old(self)@.counted(done as int).hits as u64,
                    miss_count: old(self)@.counted(done as int).misses as u64,
                    eviction_count: old(self)@.counted(done as int).evictions as u64,
                    millis_elapsed,
                }),
                old(self)@.counted(done as int).hits <= u64::MAX,
                old(self)@.counted(done as int).misses <= u64::MAX,
                old(self)@.counted(done as int).evictions <= u64::MAX,
            decreases self.shards@.len() - done,
        {
            let ghost before = self@;
            proof {
                old(self)@.lemma_counted_grows(done + 1, old(self)@.shards.len() as int);
                assert(self@.shards[done as int] == old(self)@.shards[done as int]);
            }
            let hits = self.shards[done].hit_count();
            let misses = self.shards[done].miss_count();
            let evictions = self.shards[done].eviction_count();
            stats.absorb(hits, misses, evictions);
            self.shards[done].reset_counters();
            proof {
                assert(self@.shards =~= before.shards.update(
                    done as int,
                    before.shards[done as int].reset_counters(),
                ));
            }
            done += 1;
        }
        proof {
            old(self)@.lemma_reset_counters();
        }
        stats
    }

    /// Takes the cache apart into its hasher and its shards, in the order
    /// in which `shard_of` numbers them.
    pub fn into_parts(self) -> (parts: (S, Vec<Shard<K, V, S>>))
        requires
            self.wf(),
        ensures
            parts.1@.len() == self@.shards.len(),
            forall|i: int|
                0 <= i < self@.shards.len() ==> (#[trigger] parts.1@[i]).wf() && parts.1@[i]@
                    == self@.shards[i],
    {
        proof {
            assert forall|i: int| 0 <= i < self@.shards.len() implies {
                &&& (#[trigger] self.shards@[i]).wf()
                &&& self.shards@[i]@ == self@.shards[i]
            } by {
                assert(self@.shards[i].wf());
            }
        }
        (self.hash_builder, self.shards)
    }
}

} // verus!
