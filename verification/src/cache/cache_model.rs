//! The state of a cache, the rule that sends a key to its shard, and what
//! holds of every run of the cache's operations.
use crate::cache::shard::main_queue_capacity;
use crate::cache::shard::small_queue_capacity;
use crate::cache::shard_model::ShardView;
use crate::cache::stats::CountersView;
use vstd::prelude::*;

verus! {

/// The number of shards of a cache for `capacity` entries on a machine that
/// runs `available_parallelism` threads at once: four for each thread, but
/// no more than the capacity.
pub open spec fn shard_count(available_parallelism: int, capacity: int) -> int {
    if available_parallelism * 4 <= capacity {
        available_parallelism * 4
    } else {
        capacity
    }
}

/// The capacity of each of `shards` shards of a cache for `capacity`
/// entries: the capacity divided by the number of shards, rounded up.
pub open spec fn shard_capacity(capacity: int, shards: int) -> int {
    if capacity % shards == 0 {
        capacity / shards
    } else {
        capacity / shards + 1
    }
}

/// The shard that a key of the given hash belongs to, among `shards`
/// shards: the hash modulo one less than the number of shards, or modulo 1
/// where that is less than 1. A cache without shards has no shard for any
/// key.
pub open spec fn shard_of(hash: u64, shards: int) -> Option<int> {
    if shards <= 0 {
        None
    } else if shards <= 2 {
        Some(0)
    } else {
        Some((hash as usize) as int % (shards - 1))
    }
}

/// Shards of `shard_capacity` entries each have room for the capacity, and
/// none is made for more than the capacity where there are no more shards
/// than entries.
pub proof fn lemma_shard_capacity_covers(capacity: int, shards: int)
    requires
        0 <= capacity,
        0 < shards,
    ensures
        shard_capacity(capacity, shards) * shards >= capacity,
        shard_capacity(capacity, shards) >= 0,
        shards <= capacity ==> shard_capacity(capacity, shards) <= capacity,
{
    vstd::arithmetic::div_mod::lemma_fundamental_div_mod(capacity, shards);
    let quotient = capacity / shards;
    assert(quotient * shards == shards * quotient) by (nonlinear_arith);
    assert((quotient + 1) * shards == quotient * shards + shards) by (nonlinear_arith);
    if shards <= capacity {
        assert(shard_capacity(capacity, shards) <= capacity) by (nonlinear_arith)
            requires
                1 <= shards <= capacity,
                quotient == capacity / shards,
                capacity == shards * quotient + capacity % shards,
                0 <= capacity % shards < shards,
                0 <= quotient,
        {
            if capacity % shards != 0 {
                assert(quotient >= 1);
                assert(shards >= 2);
            }
        }
    }
}

/// The state of a cache: its shards, in the order in which `shard_of`
/// numbers them.
#[verifier::ext_equal]
#[verifier::reject_recursive_types(K)]
pub struct CacheView<K, V> {
    pub shards: Seq<ShardView<K, V>>,
}

impl<K, V> CacheView<K, V> {
    /// A new cache for `capacity` entries on a machine that runs
    /// `available_parallelism` threads at once: `shard_count` empty shards,
    /// each with queues for `shard_capacity` entries.
    pub open spec fn new(capacity: int, available_parallelism: int) -> Self {
        let shards = shard_count(available_parallelism, capacity);
        if shards <= 0 {
            CacheView { shards: Seq::empty() }
        } else {
            let per_shard = shard_capacity(capacity, shards);
            CacheView {
                shards: Seq::new(
                    shards as nat,
                    |i: int|
                        ShardView::empty(
                            small_queue_capacity(per_shard),
                            main_queue_capacity(per_shard),
                        ),
                ),
            }
        }
    }

    /// The invariant of a cache: each shard is well formed.
    pub open spec fn wf(self) -> bool {
        forall|i: int| 0 <= i < self.shards.len() ==> (#[trigger] self.shards[i]).wf()
    }

    /// The value that the shard that `hash` picks holds for `key`, if any.
    pub open spec fn stored(self, hash: u64, key: K) -> Option<V> {
        match shard_of(hash, self.shards.len() as int) {
            Some(i) => self.shards[i].lookup(key),
            None => None,
        }
    }

    /// The cache after `key` was inserted with `value`, and the value that
    /// the key had before. The insert goes to the shard that `hash` picks; a
    /// cache without shards drops it. `key_hash` and `retired_hash` are the
    /// hashes that the ghost set of that shard works with.
    pub open spec fn insert(
        self,
        hash: u64,
        key: K,
        value: V,
        key_hash: u64,
        retired_hash: u64,
    ) -> (Self, Option<V>) {
        match shard_of(hash, self.shards.len() as int) {
            Some(i) => {
                let (shard, previous) = self.shards[i].insert(key, value, key_hash, retired_hash);
                (CacheView { shards: self.shards.update(i, shard) }, previous)
            },
            None => (self, None),
        }
    }

    /// The cache after a read of `key`, and the value read. The read goes to
    /// the shard that `hash` picks; a cache without shards finds nothing.
    pub open spec fn get(self, hash: u64, key: K) -> (Self, Option<V>) {
        match shard_of(hash, self.shards.len() as int) {
            Some(i) => {
                let (shard, value) = self.shards[i].get(key);
                (CacheView { shards: self.shards.update(i, shard) }, value)
            },
            None => (self, None),
        }
    }

    /// The counters of the first `upto` shards, summed.
    pub open spec fn counted(self, upto: int) -> CountersView
        decreases upto,
    {
        if upto <= 0 {
            CountersView::zero()
        } else {
            let before = self.counted(upto - 1);
            let shard = self.shards[upto - 1].counters;
            CountersView {
                hits: before.hits + shard.hits,
                misses: before.misses + shard.misses,
                evictions: before.evictions + shard.evictions,
            }
        }
    }

    /// The counters of all shards, summed.
    pub open spec fn counters(self) -> CountersView {
        self.counted(self.shards.len() as int)
    }

    /// The cache with the counters of each shard at 0.
    pub open spec fn reset_counters(self) -> Self {
        CacheView { shards: Seq::new(self.shards.len(), |i: int| self.shards[i].reset_counters()) }
    }

    /// The number of keys that the first `upto` shards hold.
    pub open spec fn live_entries_of(self, upto: int) -> nat
        decreases upto,
    {
        if upto <= 0 {
            0
        } else {
            self.live_entries_of(upto - 1) + self.shards[upto - 1].index.dom().len()
        }
    }

    /// The number of keys that the cache holds.
    pub open spec fn live_entries(self) -> nat {
        self.live_entries_of(self.shards.len() as int)
    }

    /// The number of slots that the queues of the first `upto` shards have.
    pub open spec fn capacity_of(self, upto: int) -> int
        decreases upto,
    {
        if upto <= 0 {
            0
        } else {
            self.capacity_of(upto - 1) + self.shards[upto - 1].capacity()
        }
    }

    /// The effective capacity of the cache: the number of slots that the
    /// queues of its shards have, which is the most keys that it can hold at
    /// once.
    pub open spec fn capacity(self) -> int {
        self.capacity_of(self.shards.len() as int)
    }

    /// A well-formed cache holds no more keys than its effective capacity.
    pub proof fn lemma_capacity_bound(self)
        requires
            self.wf(),
        ensures
            self.live_entries() <= self.capacity(),
    {
        self.lemma_capacity_bound_of(self.shards.len() as int);
    }

    /// The first shards of a well-formed cache hold no more keys than
    /// their queues have slots.
    pub proof fn lemma_capacity_bound_of(self, upto: int)
        requires
            self.wf(),
            0 <= upto <= self.shards.len(),
        ensures
            self.live_entries_of(upto) <= self.capacity_of(upto),
        decreases upto,
    {
        if upto > 0 {
            self.lemma_capacity_bound_of(upto - 1);
            self.shards[upto - 1].lemma_index_is_bounded();
        }
    }

    /// Caches whose shards have the same capacities have the same capacity.
    pub proof fn lemma_capacity_of_equal_capacities(self, other: Self, upto: int)
        requires
            forall|i: int|
                0 <= i < upto ==> (#[trigger] self.shards[i]).capacity()
                    == other.shards[i].capacity(),
        ensures
            self.capacity_of(upto) == other.capacity_of(upto),
        decreases upto,
    {
        if upto > 0 {
            self.lemma_capacity_of_equal_capacities(other, upto - 1);
        }
    }

    /// A new cache is well formed and holds nothing. On a machine that
    /// runs at least one thread it has room for at least the capacity that
    /// it was made for.
    pub proof fn lemma_new(capacity: int, available_parallelism: int)
        requires
            0 <= capacity <= usize::MAX,
            0 <= available_parallelism,
        ensures
            Self::new(capacity, available_parallelism).wf(),
            Self::new(capacity, available_parallelism).live_entries() == 0,
            Self::new(capacity, available_parallelism).counters() == CountersView::zero(),
            available_parallelism >= 1 ==> Self::new(capacity, available_parallelism).capacity()
                >= capacity,
    {
        let cache = Self::new(capacity, available_parallelism);
        let count = shard_count(available_parallelism, capacity);
        if count > 0 {
            lemma_shard_capacity_covers(capacity, count);
            cache.lemma_empty_shards_sum(count, shard_capacity(capacity, count));
            cache.lemma_counted_zero(count);
        }
    }

    /// Empty shards that were each made for `per_shard` entries hold
    /// nothing and have at least `per_shard` slots each.
    pub proof fn lemma_empty_shards_sum(self, upto: int, per_shard: int)
        requires
            0 <= upto <= self.shards.len(),
            0 <= per_shard,
            forall|i: int|
                0 <= i < self.shards.len() ==> (#[trigger] self.shards[i]) == ShardView::<
                    K,
                    V,
                >::empty(small_queue_capacity(per_shard), main_queue_capacity(per_shard)),
        ensures
            self.live_entries_of(upto) == 0,
            self.capacity_of(upto) >= upto * per_shard,
        decreases upto,
    {
        if upto > 0 {
            self.lemma_empty_shards_sum(upto - 1, per_shard);
            assert(upto * per_shard == (upto - 1) * per_shard + per_shard) by (nonlinear_arith);
        }
    }

    /// A change of the counters of one shard changes the sum by as much.
    pub proof fn lemma_counted_after_update(self, i: int, shard: ShardView<K, V>, upto: int)
        requires
            0 <= i < self.shards.len(),
            0 <= upto <= self.shards.len(),
        ensures
            ({
                let after = (CacheView { shards: self.shards.update(i, shard) }).counted(upto);
                let before = self.counted(upto);
                let was = self.shards[i].counters;
                &&& upto <= i ==> after == before
                &&& upto > i ==> {
                    &&& after.hits + was.hits == before.hits + shard.counters.hits
                    &&& after.misses + was.misses == before.misses + shard.counters.misses
                    &&& after.evictions + was.evictions == before.evictions
                        + shard.counters.evictions
                }
            }),
        decreases upto,
    {
        if upto > 0 {
            self.lemma_counted_after_update(i, shard, upto - 1);
        }
    }

    /// What an insert under a hash does to a well-formed cache. The cache
    /// stays well formed and keeps its capacity. The insert returns the
    /// value that was stored for the key under that hash. Afterwards the
    /// value inserted is stored for it, where the cache has a shard at all,
    /// and whatever else is stored was stored before, with the same value.
    pub proof fn lemma_insert(self, hash: u64, key: K, value: V, key_hash: u64, retired_hash: u64)
        requires
            self.wf(),
        ensures
            ({
                let (after, previous) = self.insert(hash, key, value, key_hash, retired_hash);
                &&& after.wf()
                &&& after.shards.len() == self.shards.len()
                &&& after.capacity() == self.capacity()
                &&& after.counters().follows_by_insert(self.counters())
                &&& previous == self.stored(hash, key)
                &&& self.shards.len() > 0 ==> after.stored(hash, key) == Some(value)
                &&& forall|other_hash: u64, other: K|
                    (other != key || shard_of(other_hash, self.shards.len() as int) != shard_of(
                        hash,
                        self.shards.len() as int,
                    )) && (#[trigger] after.stored(other_hash, other)) is Some ==> after.stored(
                        other_hash,
                        other,
                    ) == self.stored(other_hash, other)
            }),
    {
        let after = self.insert(hash, key, value, key_hash, retired_hash).0;
        if let Some(i) = shard_of(hash, self.shards.len() as int) {
            self.shards[i].lemma_insert(key, value, key_hash, retired_hash);
            self.shards[i].lemma_insert_keeps_other_keys(key, value, key_hash, retired_hash);
            self.shards[i].lemma_insert_victim(key, value, key_hash, retired_hash);
            after.lemma_capacity_of_equal_capacities(self, after.shards.len() as int);
            self.lemma_counted_after_update(i, after.shards[i], self.shards.len() as int);
        }
    }

    /// What a read under a hash does to a well-formed cache. The cache
    /// stays well formed and keeps its capacity, the read finds what is
    /// stored for the key under that hash, and what is stored under any hash
    /// and key stays stored, with the same value.
    pub proof fn lemma_get(self, hash: u64, key: K)
        requires
            self.wf(),
        ensures
            ({
                let (after, value) = self.get(hash, key);
                &&& after.wf()
                &&& after.shards.len() == self.shards.len()
                &&& after.capacity() == self.capacity()
                &&& after.counters().follows_by_read(self.counters())
                &&& value == self.stored(hash, key)
                &&& forall|other_hash: u64, other: K|
                    (#[trigger] after.stored(other_hash, other)) == self.stored(other_hash, other)
            }),
    {
        let after = self.get(hash, key).0;
        after.lemma_capacity_of_equal_capacities(self, after.shards.len() as int);
        if let Some(i) = shard_of(hash, self.shards.len() as int) {
            self.lemma_counted_after_update(i, after.shards[i], self.shards.len() as int);
        }
    }

    /// What a reset of the counters does to a well-formed cache. The cache
    /// stays well formed and keeps its capacity and what it stores, and its
    /// counters sum to 0, so that statistics taken next find nothing.
    pub proof fn lemma_reset_counters(self)
        requires
            self.wf(),
        ensures
            self.reset_counters().wf(),
            self.reset_counters().counters() == CountersView::zero(),
            self.reset_counters().capacity() == self.capacity(),
            forall|hash: u64, key: K|
                (#[trigger] self.reset_counters().stored(hash, key)) == self.stored(hash, key),
    {
        let after = self.reset_counters();
        after.lemma_counted_zero(after.shards.len() as int);
        after.lemma_capacity_of_equal_capacities(self, after.shards.len() as int);
    }

    /// Counters that are 0 in each shard sum to 0.
    pub proof fn lemma_counted_zero(self, upto: int)
        requires
            0 <= upto <= self.shards.len(),
            forall|i: int|
                0 <= i < self.shards.len() ==> (#[trigger] self.shards[i]).counters
                    == CountersView::zero(),
        ensures
            self.counted(upto) == CountersView::zero(),
        decreases upto,
    {
        if upto > 0 {
            self.lemma_counted_zero(upto - 1);
        }
    }

    /// The sum of the counters grows with the number of shards counted.
    pub proof fn lemma_counted_grows(self, fewer: int, more: int)
        requires
            fewer <= more,
        ensures
            self.counted(fewer).hits <= self.counted(more).hits,
            self.counted(fewer).misses <= self.counted(more).misses,
            self.counted(fewer).evictions <= self.counted(more).evictions,
        decreases more - fewer,
    {
        if fewer < more {
            self.lemma_counted_grows(fewer, more - 1);
        }
    }

    /// Inserting a key twice under one hash: the second insert returns the
    /// value of the first, and a read after it, under the same hash, finds
    /// the value of the second. This holds of every cache that has a shard.
    pub proof fn lemma_update_overwrites_and_returns_prior(
        self,
        hash: u64,
        key: K,
        first: V,
        second: V,
        first_hashes: (u64, u64),
        second_hashes: (u64, u64),
    )
        requires
            self.wf(),
            self.shards.len() > 0,
        ensures
            ({
                let once = self.insert(hash, key, first, first_hashes.0, first_hashes.1).0;
                let (twice, prior) = once.insert(
                    hash,
                    key,
                    second,
                    second_hashes.0,
                    second_hashes.1,
                );
                prior == Some(first) && twice.get(hash, key).1 == Some(second)
            }),
    {
        let once = self.insert(hash, key, first, first_hashes.0, first_hashes.1).0;
        self.lemma_insert(hash, key, first, first_hashes.0, first_hashes.1);
        once.lemma_insert(hash, key, second, second_hashes.0, second_hashes.1);
    }

    /// A read of a key that is not stored under its hash finds nothing and
    /// changes nothing that is stored: the next read of it finds nothing
    /// either.
    pub proof fn lemma_miss_changes_no_membership(self, hash: u64, key: K)
        requires
            self.wf(),
            self.stored(hash, key) is None,
        ensures
            self.get(hash, key).1 is None,
            self.get(hash, key).0.get(hash, key).1 is None,
            forall|other_hash: u64, other: K|
                (#[trigger] self.get(hash, key).0.stored(other_hash, other)) == self.stored(
                    other_hash,
                    other,
                ),
    {
    }
}

} // verus!
