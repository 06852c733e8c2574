//! One partition of the cache: an index, two queues and a ghost set that
//! move in step.
use crate::cache::entry::Entry;
use crate::cache::entry::EntryPointer;
use crate::cache::entry::MAX_ACCESS_COUNT;
use crate::cache::fixed_size_hash_table::bucket_holds;
use crate::cache::fixed_size_hash_table::buckets_after_insert;
use crate::cache::fixed_size_hash_table::FixedSizeHashTable;
use crate::cache::hashing::clone_key;
use crate::cache::hashing::empty_map_with_hasher;
use crate::cache::hashing::obeys_cache_key_model;
use crate::cache::ring_buffer::RingBuffer;
use crate::cache::shard_model::eviction_budget;
use crate::cache::shard_model::ShardView;
use crate::cache::stats::Counters;
use std::collections::HashMap;
use std::hash::BuildHasher;
use std::hash::Hash;
use vstd::prelude::*;

verus! {

/// The number of slots of the small queue of a shard made for `capacity`
/// entries: a tenth of the capacity, and at least one.
pub open spec fn small_queue_capacity(capacity: int) -> int {
    if capacity / 10 >= 1 {
        capacity / 10
    } else {
        1
    }
}

/// The number of slots of the main queue of a shard made for `capacity`
/// entries: what the small queue leaves of the capacity, and at least one.
pub open spec fn main_queue_capacity(capacity: int) -> int {
    if capacity - small_queue_capacity(capacity) >= 1 {
        capacity - small_queue_capacity(capacity)
    } else {
        1
    }
}

/// A shard: the entries of some of the cache's keys, held in a small and a
/// main queue, with an index from each key to the slot of its entry and a
/// ghost set of keys that left the small queue unread.
#[verifier::reject_recursive_types(S)]
pub struct Shard<K, V, S = ahash::RandomState> {
    entry_pointers: HashMap<K, EntryPointer, S>,
    small_queue: RingBuffer<Entry<K, V>>,
    main_queue: RingBuffer<Entry<K, V>>,
    ghost_queue: FixedSizeHashTable<K, S>,
    counters: Counters,
}

impl<K, V, S> View for Shard<K, V, S> {
    type V = ShardView<K, V>;

    closed spec fn view(&self) -> ShardView<K, V> {
        ShardView {
            index: self.entry_pointers@,
            small: self.small_queue@,
            main: self.main_queue@,
            ghost_set: self.ghost_queue@,
            counters: self.counters@,
        }
    }
}

impl<K, V, S> Shard<K, V, S> where K: Clone + Eq + Hash, S: BuildHasher + Clone {
    /// An empty shard for `capacity` entries.
    pub fn with_capacity_and_hasher(capacity: usize, hash_builder: S) -> (shard: Self)
        requires
            obeys_cache_key_model::<K, S>(),
        ensures
            shard.wf(),
            shard@ == ShardView::<K, V>::empty(
                small_queue_capacity(capacity as int),
                main_queue_capacity(capacity as int),
            ),
    {
        let small_fifo_queue_size = if capacity / 10 >= 1 {
            capacity / 10
        } else {
            1
        };
        let main_fifo_queue_size = if capacity > small_fifo_queue_size {
            capacity - small_fifo_queue_size
        } else {
            1
        };
        let mut entry_pointers = empty_map_with_hasher(hash_builder.clone());
        entry_pointers.reserve(capacity);
        let shard = Self {
            entry_pointers,
            small_queue: RingBuffer::with_capacity(small_fifo_queue_size),
            main_queue: RingBuffer::with_capacity(main_fifo_queue_size),
            ghost_queue: FixedSizeHashTable::with_capacity_and_hasher(
                main_fifo_queue_size,
                hash_builder,
            ),
            counters: Counters::default(),
        };
        shard
    }
}

impl<K, V, S> Shard<K, V, S> where K: Clone + Eq + Hash, S: BuildHasher {
    /// The invariant of a shard: its keys and its hasher obey the key
    /// model, and its state is well formed.
    pub open spec fn wf(&self) -> bool {
        obeys_cache_key_model::<K, S>() && self@.wf()
    }

    /// Sends an entry that was popped from a queue to the tail of the main
    /// queue, with `num_accessed` as its access count, and points the index
    /// to its new slot.
    fn reinsert_into_main_queue(
        &mut self,
        entry: Entry<K, V>,
        num_accessed: u8,
        Ghost(pending): Ghost<Set<K>>,
    )
        requires
            obeys_cache_key_model::<K, S>(),
            old(self)@.consistent(pending.insert(entry@.key)),
            !pending.contains(entry@.key),
            !old(self)@.main.is_full(),
            num_accessed <= MAX_ACCESS_COUNT,
        ensures
            final(self)@ == old(self)@.admit_to_main(entry.with_count(num_accessed as nat)),
            final(self)@.consistent(pending),
    {
        let mut entry = entry;
        entry.set_num_accessed(num_accessed);
        let key = clone_key(&entry.key);
        let index = self.main_queue.push_back(entry).expect("the main queue has room");
        self.entry_pointers.insert(key, EntryPointer::MainQueue(index));
    }

    /// Makes room in the main queue: pops entries from its head until one
    /// with an access count of 0 turns up, which leaves the shard. Each
    /// entry popped before that goes back to the tail with its access count
    /// lowered by one. Returns the number of entries that it popped, which
    /// is at most four for each slot in use.
    fn evict_main_queue(&mut self, Ghost(pending): Ghost<Set<K>>) -> (steps: Ghost<nat>)
        requires
            obeys_cache_key_model::<K, S>(),
            old(self)@.consistent(pending),
        ensures
            final(self)@ == old(self)@.evict_main(),
            final(self)@.consistent(pending),
            !final(self)@.main.is_full(),
            steps@ == old(self)@.eviction_steps(),
            steps@ <= 4 * old(self)@.main.len,
    {
        proof {
            old(self)@.lemma_evict_main(pending);
            old(self)@.lemma_eviction_steps_are_bounded(pending);
        }
        let ghost mut steps: nat = 0;
        loop
            invariant
                obeys_cache_key_model::<K, S>(),
                self@.consistent(pending),
                self@.evict_main() == old(self)@.evict_main(),
                steps + self@.eviction_steps() == old(self)@.eviction_steps(),
                old(self)@.evict_main().consistent(pending),
                !old(self)@.evict_main().main.is_full(),
                old(self)@.eviction_steps() <= 4 * old(self)@.main.len,
            decreases eviction_budget(self@.main, 0),
        {
            proof {
                self@.lemma_pop_main(pending);
                self@.lemma_reinsertion_lowers_budget();
            }
            match self.main_queue.pop_front() {
                Some(entry) => {
                    proof {
                        steps = steps + 1;
                    }
                    let num_accessed = entry.get_num_accessed();
                    if num_accessed > 0 {
                        let decremented_by_one = num_accessed - 1;
                        self.reinsert_into_main_queue(entry, decremented_by_one, Ghost(pending));
                        continue ;
                    } else {
                        self.entry_pointers.remove(&entry.key);
                        self.counters.increment_eviction_count();
                        return Ghost(steps);
                    }
                },
                None => {
                    return Ghost(steps);
                },
            }
        }
    }

    /// Admits an entry to the main queue, after an eviction where the queue
    /// is full, and points the index to its slot.
    fn insert_into_main_queue(
        &mut self,
        entry: Entry<K, V>,
        Ghost(pending): Ghost<Set<K>>,
    ) -> (none: Option<V>)
        requires
            obeys_cache_key_model::<K, S>(),
            old(self)@.consistent(pending.insert(entry@.key)),
            !pending.contains(entry@.key),
        ensures
            final(self)@ == old(self)@.insert_into_main(entry),
            final(self)@.consistent(pending),
            none is None,
    {
        proof {
            use_type_invariant(&entry);
        }
        if self.main_queue.is_full() {
            self.evict_main_queue(Ghost(pending.insert(entry@.key)));
        }
        let key = clone_key(&entry.key);
        let index = self.main_queue.push_back(entry).expect("the main queue has room");
        self.entry_pointers.insert(key, EntryPointer::MainQueue(index));
        None
    }

    /// Makes room in the small queue: pops its oldest entry, and promotes
    /// it to the main queue where it was read more than once, or else lets
    /// it leave the shard and notes its key in the ghost set.
    fn evict_small_queue(&mut self, Ghost(pending): Ghost<Set<K>>)
        requires
            obeys_cache_key_model::<K, S>(),
            old(self)@.consistent(pending),
        ensures
            exists|retired_hash: u64|
                final(self)@ == #[trigger] old(self)@.evict_small(retired_hash),
            final(self)@.consistent(pending),
            !final(self)@.small.is_full(),
    {
        proof {
            old(self)@.lemma_pop_small(pending);
        }
        match self.small_queue.pop_front() {
            Some(entry) => {
                if entry.get_num_accessed() > 1 {
                    if self.main_queue.is_full() {
                        self.evict_main_queue(Ghost(pending.insert(entry@.key)));
                    }
                    self.reinsert_into_main_queue(entry, 0, Ghost(pending));
                    proof {
                        old(self)@.lemma_evict_small(pending, 0);
                        assert(self@ == old(self)@.evict_small(0));
                    }
                } else {
                    self.entry_pointers.remove(&entry.key);
                    let ghost key = entry@.key;
                    let ghost buckets = self.ghost_queue@;
                    self.ghost_queue.insert(entry.key);
                    self.counters.increment_eviction_count();
                    proof {
                        let retired_hash = choose|hash: u64|
                            self.ghost_queue@ == #[trigger] buckets_after_insert(
                                buckets,
                                hash,
                                key,
                            );
                        old(self)@.lemma_evict_small(pending, retired_hash);
                    }
                }
            },
            None => {},
        }
    }

    /// Admits an entry to the small queue, after an eviction where the
    /// queue is full, and points the index to its slot.
    fn insert_into_small_queue(
        &mut self,
        entry: Entry<K, V>,
        Ghost(pending): Ghost<Set<K>>,
    ) -> (none: Option<V>)
        requires
            obeys_cache_key_model::<K, S>(),
            old(self)@.consistent(pending.insert(entry@.key)),
            !pending.contains(entry@.key),
        ensures
            exists|retired_hash: u64|
                final(self)@ == #[trigger] old(self)@.insert_into_small(entry, retired_hash),
            final(self)@.consistent(pending),
            none is None,
    {
        proof {
            use_type_invariant(&entry);
        }
        let ghost mut retired_hash = 0u64;
        if self.small_queue.is_full() {
            self.evict_small_queue(Ghost(pending.insert(entry@.key)));
            proof {
                retired_hash = choose|hash: u64| self@ == #[trigger] old(self)@.evict_small(hash);
            }
        }
        let key = clone_key(&entry.key);
        let index = self.small_queue.push_back(entry).expect("the small queue has room");
        self.entry_pointers.insert(key, EntryPointer::SmallQueue(index));
        assert(self@ == old(self)@.insert_into_small(entry, retired_hash));
        None
    }

    /// Inserts `key` with `value` and returns the value that the key had
    /// before. The key's entry is new: it sits at the tail of its queue with
    /// an access count of 0, in the main queue where the ghost set knows the
    /// key and in the small queue otherwise. Making room for it evicts at
    /// most one other key, and changes the value of none.
    pub fn insert(&mut self, key: K, value: V) -> (previous: Option<V>)
        requires
            old(self).wf(),
        ensures
            final(self).wf(),
            exists|key_hash: u64, retired_hash: u64|
                (final(self)@, previous) == #[trigger] old(self)@.insert(
                    key,
                    value,
                    key_hash,
                    retired_hash,
                ),
            previous == old(self)@.lookup(key),
            final(self)@.lookup(key) == Some(value),
            final(self)@.capacity() == old(self)@.capacity(),
            final(self)@.counters.follows_by_insert(old(self)@.counters),
            forall|other: K|
                other != key && (#[trigger] final(self)@.lookup(other)) is Some
                    ==> final(self)@.lookup(other) == old(self)@.lookup(other),
            forall|one: K, other: K|
                one != other && (#[trigger] old(self)@.lookup(one)) is Some && (
                #[trigger] old(self)@.lookup(other)) is Some ==> final(self)@.lookup(one) is Some
                    || final(self)@.lookup(other) is Some,
    {
        broadcast use vstd::std_specs::hash::group_hash_axioms;

        let previous_item = match self.entry_pointers.get(&key) {
            Some(pointer) => match *pointer {
                EntryPointer::MainQueue(index) => match self.main_queue.remove(index) {
                    Some(entry) => Some(entry.value),
                    None => None,
                },
                EntryPointer::SmallQueue(index) => match self.small_queue.remove(index) {
                    Some(entry) => Some(entry.value),
                    None => None,
                },
            },
            None => None,
        };
        let entry = Entry::new(clone_key(&key), value);
        let found = self.ghost_queue.contains(&key);
        let ghost key_hash = choose|hash: u64|
            found == #[trigger] bucket_holds(old(self)@.ghost_set, hash, key);
        let ghost mut retired_hash = 0u64;
        if found {
            self.insert_into_main_queue(entry, Ghost(Set::empty()));
        } else {
            let ghost unlinked = self@;
            self.insert_into_small_queue(entry, Ghost(Set::empty()));
            proof {
                retired_hash = choose|hash: u64|
                    self@ == #[trigger] unlinked.insert_into_small(entry, hash);
            }
        }
        proof {
            old(self)@.lemma_insert(key, value, key_hash, retired_hash);
            old(self)@.lemma_insert_keeps_other_keys(key, value, key_hash, retired_hash);
            old(self)@.lemma_insert_victim(key, value, key_hash, retired_hash);
        }
        previous_item
    }

    /// Counts one more read of `entry`, up to `MAX_ACCESS_COUNT`.
    fn update_access_count(entry: &mut Entry<K, V>)
        ensures
            *final(entry) == old(entry).touched(),
    {
        let current_val = entry.get_num_accessed();
        if current_val >= MAX_ACCESS_COUNT {
            return ;
        }
        entry.increment_num_accessed(current_val);
    }

    /// Reads the value of `key`. A key that the shard holds is a hit: a
    /// clone of its value comes back, and its entry is read once more. Any
    /// other key is a miss. The keys that the shard holds and their values
    /// stay as they are.
    pub fn get(&mut self, key: &K) -> (value: Option<V>) where V: Clone
        requires
            old(self).wf(),
        ensures
            final(self).wf(),
            final(self)@ == old(self)@.get(*key).0,
            final(self)@.capacity() == old(self)@.capacity(),
            final(self)@.counters.follows_by_read(old(self)@.counters),
            forall|other: K| (#[trigger] final(self)@.lookup(other)) == old(self)@.lookup(other),
            match value {
                Some(found) => old(self)@.lookup(*key) matches Some(stored) && cloned(
                    stored,
                    found,
                ),
                None => old(self)@.lookup(*key) is None,
            },
    {
        broadcast use vstd::std_specs::hash::group_hash_axioms;

        let pointer = match self.entry_pointers.get(key) {
            Some(pointer) => *pointer,
            None => {
                self.counters.increment_miss_count();
                return None;
            },
        };
        self.counters.increment_hit_count();
        match pointer {
            EntryPointer::MainQueue(index) => {
                let entry = self.main_queue.buffer[index].as_mut().expect(
                    "an entry must exist for an entry pointer",
                );
                Self::update_access_count(entry);
                Some(entry.value.clone())
            },
            EntryPointer::SmallQueue(index) => {
                let entry = self.small_queue.buffer[index].as_mut().expect(
                    "an entry must exist for an entry pointer",
                );
                Self::update_access_count(entry);
                Some(entry.value.clone())
            },
        }
    }
}

impl<K, V, S> Shard<K, V, S> {
    /// The number of hits since the counters were last reset.
    pub fn hit_count(&self) -> (count: u64)
        ensures
            count == self@.counters.hits,
    {
        self.counters.hit_count()
    }

    /// The number of misses since the counters were last reset.
    pub fn miss_count(&self) -> (count: u64)
        ensures
            count == self@.counters.misses,
    {
        self.counters.miss_count()
    }

    /// The number of entries that left the shard since the counters were
    /// last reset.
    pub fn eviction_count(&self) -> (count: u64)
        ensures
            count == self@.counters.evictions,
    {
        self.counters.eviction_count()
    }

    /// Sets the three counters to 0. The entries stay as they are.
    pub fn reset_counters(&mut self)
        ensures
            final(self)@ == old(self)@.reset_counters(),
    {
        self.counters.reset();
    }
}

} // verus!
