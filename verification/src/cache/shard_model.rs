//! The state of a shard and the S3-FIFO transitions on it.
use crate::cache::entry::Entry;
use crate::cache::entry::EntryPointer;
use crate::cache::entry::EntryView;
use crate::cache::entry::MAX_ACCESS_COUNT;
use crate::cache::fixed_size_hash_table::bucket_holds;
use crate::cache::fixed_size_hash_table::buckets_after_insert;
use crate::cache::ring_buffer::RingView;
use crate::cache::stats::wrapping_successor;
use crate::cache::stats::CountersView;
use vstd::prelude::*;

verus! {

/// What a slot of the main queue adds to the work that an eviction may have
/// to do: an entry is taken from the head once more than its access count
/// says before it leaves.
pub open spec fn slot_cost<K, V>(slot: Option<Entry<K, V>>) -> nat {
    match slot {
        Some(entry) => entry@.num_accessed + 1,
        None => 0,
    }
}

/// The costs of the slots in use of `ring`, summed from the one `from` slots
/// after the head to the last.
pub open spec fn eviction_budget<K, V>(ring: RingView<Entry<K, V>>, from: int) -> nat
    decreases ring.len - from,
{
    if from < 0 || from >= ring.len {
        0
    } else {
        slot_cost(ring.slots[ring.wrap(ring.head + from)]) + eviction_budget(ring, from + 1)
    }
}

/// Leaving the head slot behind takes its cost off the budget.
pub proof fn lemma_budget_advance<K, V>(ring: RingView<Entry<K, V>>, from: int)
    requires
        ring.wf(),
        ring.len >= 1,
        0 <= from,
    ensures
        eviction_budget(ring.advance(), from) == eviction_budget(ring, from + 1),
    decreases ring.len - from,
{
    if from < ring.len - 1 {
        lemma_budget_advance(ring, from + 1);
    }
}

/// Writing an item at the tail adds its cost to the budget.
pub proof fn lemma_budget_push_back<K, V>(
    ring: RingView<Entry<K, V>>,
    entry: Entry<K, V>,
    from: int,
)
    requires
        ring.wf(),
        !ring.is_full(),
        0 <= from <= ring.len,
    ensures
        eviction_budget(ring.push_back(entry), from) == eviction_budget(ring, from) + slot_cost(
            Some(entry),
        ),
    decreases ring.len - from,
{
    if from < ring.len {
        lemma_budget_push_back(ring, entry, from + 1);
    } else {
        assert(eviction_budget(ring.push_back(entry), from + 1) == 0);
    }
}

/// A pop takes the cost of the item it hands out off the budget.
pub proof fn lemma_budget_pop_front<K, V>(ring: RingView<Entry<K, V>>)
    requires
        ring.wf(),
    ensures
        eviction_budget(ring.pop_front().0, 0) + slot_cost(ring.pop_front().1) == eviction_budget(
            ring,
            0,
        ),
    decreases ring.len,
{
    if ring.len > 0 {
        lemma_budget_advance(ring, 0);
        if ring.slots[ring.head] is None {
            lemma_budget_pop_front(ring.advance());
        }
    }
}

/// With access counts of at most `MAX_ACCESS_COUNT`, the budget is at most
/// `MAX_ACCESS_COUNT + 1` for each slot in use.
pub proof fn lemma_budget_bound<K, V>(ring: RingView<Entry<K, V>>, from: int)
    requires
        ring.wf(),
        0 <= from <= ring.len,
        forall|i: int|
            0 <= i < ring.capacity() ==> slot_cost(#[trigger] ring.slots[i]) <= MAX_ACCESS_COUNT
                + 1,
    ensures
        eviction_budget(ring, from) <= (MAX_ACCESS_COUNT + 1) * (ring.len - from),
    decreases ring.len - from,
{
    if from < ring.len {
        lemma_budget_bound(ring, from + 1);
    }
}

/// The state of a shard: the index from each key to the slot of its entry,
/// the small and the main queue, the buckets of the ghost set, and the
/// counters.
#[verifier::ext_equal]
#[verifier::reject_recursive_types(K)]
pub struct ShardView<K, V> {
    pub index: Map<K, EntryPointer>,
    pub small: RingView<Entry<K, V>>,
    pub main: RingView<Entry<K, V>>,
    pub ghost_set: Seq<Option<K>>,
    pub counters: CountersView,
}

impl<K, V> ShardView<K, V> {
    /// A shard that holds nothing, with queues of the given capacities and
    /// as many ghost buckets as the main queue has slots.
    pub open spec fn empty(small_capacity: int, main_capacity: int) -> Self {
        ShardView {
            index: Map::empty(),
            small: RingView::empty(small_capacity),
            main: RingView::empty(main_capacity),
            ghost_set: Seq::new(main_capacity as nat, |i: int| None),
            counters: CountersView::zero(),
        }
    }

    /// Whether `pointer` leads to a slot that holds an entry for `key`.
    pub open spec fn points_to(self, pointer: EntryPointer, key: K) -> bool {
        match pointer {
            EntryPointer::MainQueue(i) => i < self.main.capacity() && (
            self.main.slots[i as int] matches Some(entry) && entry@.key == key),
            EntryPointer::SmallQueue(i) => i < self.small.capacity() && (
            self.small.slots[i as int] matches Some(entry) && entry@.key == key),
        }
    }

    /// Whether a slot is empty, or holds an entry with a valid access count
    /// that the index knows under its key, by `pointer`, and whose key is
    /// not in `pending`.
    pub open spec fn slot_indexed(
        self,
        slot: Option<Entry<K, V>>,
        pointer: EntryPointer,
        pending: Set<K>,
    ) -> bool {
        match slot {
            Some(entry) => {
                &&& self.index.contains_key(entry@.key)
                &&& self.index[entry@.key] == pointer
                &&& !pending.contains(entry@.key)
                &&& entry@.num_accessed <= MAX_ACCESS_COUNT
            },
            None => true,
        }
    }

    /// The index and the queues agree, but for the keys in `pending`: the
    /// index may hold any pointer for such a key, and no slot holds an entry
    /// for it. Both queues are well formed and have at least one slot, and
    /// the ghost set has as many buckets as the main queue has slots.
    pub open spec fn consistent(self, pending: Set<K>) -> bool {
        &&& self.index.dom().finite()
        &&& self.small.wf()
        &&& self.main.wf()
        &&& 1 <= self.small.capacity() <= usize::MAX
        &&& 1 <= self.main.capacity() <= usize::MAX
        &&& self.ghost_set.len() == self.main.capacity()
        &&& forall|key: K| #[trigger]
            self.index.contains_key(key) && !pending.contains(key) ==> self.points_to(
                self.index[key],
                key,
            )
        &&& forall|i: int|
            0 <= i < self.main.capacity() ==> self.slot_indexed(#[trigger] self.main.slots[i],
                EntryPointer::MainQueue(i as usize),
                pending,
            )
        &&& forall|i: int|
            0 <= i < self.small.capacity() ==> self.slot_indexed(#[trigger] self.small.slots[i],
                EntryPointer::SmallQueue(i as usize),
                pending,
            )
    }

    /// The invariant of a shard. Every key in the index has a pointer to an
    /// occupied slot whose entry has that key; every occupied slot is known
    /// to the index under the key of its entry; and every access count is at
    /// most `MAX_ACCESS_COUNT`.
    pub open spec fn wf(self) -> bool {
        self.consistent(Set::empty())
    }

    /// The number of slots of both queues: the most keys that the shard can
    /// hold at once.
    pub open spec fn capacity(self) -> int {
        self.small.capacity() + self.main.capacity()
    }

    /// The entry in the slot that `pointer` leads to.
    pub open spec fn entry_at(self, pointer: EntryPointer) -> Entry<K, V> {
        match pointer {
            EntryPointer::MainQueue(i) => self.main.slots[i as int].unwrap(),
            EntryPointer::SmallQueue(i) => self.small.slots[i as int].unwrap(),
        }
    }

    /// The keys that the shard holds, each with its value.
    pub open spec fn contents(self) -> Map<K, V> {
        Map::new(
            |key: K| self.index.contains_key(key),
            |key: K| self.entry_at(self.index[key])@.value,
        )
    }

    /// The state with one more eviction counted.
    pub open spec fn count_eviction(self) -> Self {
        ShardView {
            counters: CountersView {
                evictions: wrapping_successor(self.counters.evictions),
                ..self.counters
            },
            ..self
        }
    }

    /// The state after `entry` was pushed to the main queue and the index
    /// was pointed to its slot.
    pub open spec fn admit_to_main(self, entry: Entry<K, V>) -> Self {
        ShardView {
            index: self.index.insert(
                entry@.key,
                EntryPointer::MainQueue(self.main.tail() as usize),
            ),
            main: self.main.push_back(entry),
            ..self
        }
    }

    /// The state after `entry` was pushed to the small queue and the index
    /// was pointed to its slot.
    pub open spec fn admit_to_small(self, entry: Entry<K, V>) -> Self {
        ShardView {
            index: self.index.insert(
                entry@.key,
                EntryPointer::SmallQueue(self.small.tail() as usize),
            ),
            small: self.small.push_back(entry),
            ..self
        }
    }

    /// The state after an eviction from the main queue. Entries are popped
    /// from the head until one with an access count of 0 is found. That one
    /// leaves the shard, and the eviction is counted. Each entry popped
    /// before it goes back to the tail with its access count lowered by one.
    /// Where the queue holds no entry at all, nothing leaves.
    pub open spec fn evict_main(self) -> Self
        decreases eviction_budget(self.main, 0),
        when self.main.wf()
        via Self::evict_main_decreases
    {
        let (main, popped) = self.main.pop_front();
        match popped {
            None => ShardView { main, ..self },
            Some(entry) => if entry@.num_accessed > 0 {
                (ShardView { main, ..self }).admit_to_main(
                    entry.with_count((entry@.num_accessed - 1) as nat),
                ).evict_main()
            } else {
                (ShardView { index: self.index.remove(entry@.key), main, ..self }).count_eviction()
            },
        }
    }

    /// The state after `entry` was admitted to the main queue, which first
    /// evicts where it is full.
    pub open spec fn insert_into_main(self, entry: Entry<K, V>) -> Self {
        (if self.main.is_full() {
            self.evict_main()
        } else {
            self
        }).admit_to_main(entry)
    }

    /// The state after an eviction from the small queue. The oldest entry
    /// is popped. Where it was read more than once, it is promoted: it goes
    /// to the main queue, which first evicts where it is full, with an
    /// access count of 0. Otherwise it is retired: it leaves the shard, its
    /// key goes to the bucket of the ghost set that `retired_hash` picks,
    /// and the eviction is counted.
    pub open spec fn evict_small(self, retired_hash: u64) -> Self {
        let (small, popped) = self.small.pop_front();
        let rest = ShardView { small, ..self };
        match popped {
            None => rest,
            Some(entry) => if entry@.num_accessed > 1 {
                rest.insert_into_main(entry.with_count(0))
            } else {
                (ShardView {
                    index: rest.index.remove(entry@.key),
                    ghost_set: buckets_after_insert(rest.ghost_set, retired_hash, entry@.key),
                    ..rest
                }).count_eviction()
            },
        }
    }

    /// The state after `entry` was admitted to the small queue, which first
    /// evicts where it is full.
    pub open spec fn insert_into_small(self, entry: Entry<K, V>, retired_hash: u64) -> Self {
        (if self.small.is_full() {
            self.evict_small(retired_hash)
        } else {
            self
        }).admit_to_small(entry)
    }

    /// The state after the slot of `key`, if the index has one, was
    /// cleared. The index keeps its pointer until the key is admitted again.
    pub open spec fn unlink(self, key: K) -> Self {
        if self.index.contains_key(key) {
            match self.index[key] {
                EntryPointer::MainQueue(i) => ShardView {
                    main: self.main.remove(i as int),
                    ..self
                },
                EntryPointer::SmallQueue(i) => ShardView {
                    small: self.small.remove(i as int),
                    ..self
                },
            }
        } else {
            self
        }
    }

    /// The value that the shard holds for `key`, if any.
    pub open spec fn lookup(self, key: K) -> Option<V> {
        if self.index.contains_key(key) {
            Some(self.entry_at(self.index[key])@.value)
        } else {
            None
        }
    }

    /// The state after `key` was inserted with `value`, and the value that
    /// the key had before. The old entry of the key, if there is one, is
    /// taken out of its queue. A fresh entry with an access count of 0 is
    /// admitted to the main queue where the bucket of the ghost set that
    /// `key_hash` picks holds the key, and to the small queue otherwise;
    /// `retired_hash` is the hash of the key that the small queue retires, if
    /// it retires one.
    pub open spec fn insert(self, key: K, value: V, key_hash: u64, retired_hash: u64) -> (
        Self,
        Option<V>,
    ) {
        let entry = Entry::of(EntryView { key, value, num_accessed: 0 });
        let unlinked = self.unlink(key);
        let admitted = if bucket_holds(self.ghost_set, key_hash, key) {
            unlinked.insert_into_main(entry)
        } else {
            unlinked.insert_into_small(entry, retired_hash)
        };
        (admitted, self.lookup(key))
    }

    /// The state with the entry in the slot that `pointer` leads to read
    /// once more.
    pub open spec fn touch(self, pointer: EntryPointer) -> Self {
        match pointer {
            EntryPointer::MainQueue(i) => ShardView {
                main: RingView {
                    slots: self.main.slots.update(i as int, Some(self.entry_at(pointer).touched())),
                    ..self.main
                },
                ..self
            },
            EntryPointer::SmallQueue(i) => ShardView {
                small: RingView {
                    slots: self.small.slots.update(
                        i as int,
                        Some(self.entry_at(pointer).touched()),
                    ),
                    ..self.small
                },
                ..self
            },
        }
    }

    /// The state after a read of `key`, and the value read. A key that the
    /// shard holds is a hit: its entry is read once more. Any other key is a
    /// miss. Neither changes which keys the shard holds, nor their values.
    pub open spec fn get(self, key: K) -> (Self, Option<V>) {
        if self.index.contains_key(key) {
            let touched = self.touch(self.index[key]);
            (
                ShardView {
                    counters: CountersView {
                        hits: wrapping_successor(self.counters.hits),
                        ..self.counters
                    },
                    ..touched
                },
                self.lookup(key),
            )
        } else {
            (
                ShardView {
                    counters: CountersView {
                        misses: wrapping_successor(self.counters.misses),
                        ..self.counters
                    },
                    ..self
                },
                None,
            )
        }
    }

    /// The state with its three counters at 0.
    pub open spec fn reset_counters(self) -> Self {
        ShardView { counters: CountersView::zero(), ..self }
    }

    #[via_fn]
    proof fn evict_main_decreases(self) {
        self.lemma_reinsertion_lowers_budget();
    }

    /// Sending the popped entry back to the tail with its access count
    /// lowered by one leaves a smaller budget than there was before the pop.
    pub proof fn lemma_reinsertion_lowers_budget(self)
        requires
            self.main.wf(),
        ensures
            ({
                let (main, popped) = self.main.pop_front();
                match popped {
                    Some(entry) => entry@.num_accessed > 0 ==> eviction_budget(
                        main.push_back(entry.with_count((entry@.num_accessed - 1) as nat)),
                        0,
                    ) < eviction_budget(self.main, 0),
                    None => true,
                }
            }),
    {
        let (main, popped) = self.main.pop_front();
        self.main.lemma_pop_front();
        lemma_budget_pop_front(self.main);
        if let Some(entry) = popped {
            if entry@.num_accessed > 0 {
                let lowered = entry.with_count((entry@.num_accessed - 1) as nat);
                lemma_budget_push_back(main, lowered, 0);
            }
        }
    }

    /// Popping an entry from the main queue leaves a state that is
    /// consistent but for the key of that entry.
    pub proof fn lemma_pop_main(self, pending: Set<K>)
        requires
            self.consistent(pending),
        ensures
            ({
                let (main, popped) = self.main.pop_front();
                let rest = ShardView { main, ..self };
                match popped {
                    Some(entry) => {
                        &&& rest.consistent(pending.insert(entry@.key))
                        &&& !pending.contains(entry@.key)
                        &&& self.index.contains_key(entry@.key)
                        &&& entry@.num_accessed <= MAX_ACCESS_COUNT
                        &&& !main.is_full()
                    },
                    None => rest.consistent(pending) && main.len == 0,
                }
            }),
    {
        self.main.lemma_pop_front();
    }

    /// Popping an entry from the small queue leaves a state that is
    /// consistent but for the key of that entry.
    pub proof fn lemma_pop_small(self, pending: Set<K>)
        requires
            self.consistent(pending),
        ensures
            ({
                let (small, popped) = self.small.pop_front();
                let rest = ShardView { small, ..self };
                match popped {
                    Some(entry) => {
                        &&& rest.consistent(pending.insert(entry@.key))
                        &&& !pending.contains(entry@.key)
                        &&& self.index.contains_key(entry@.key)
                        &&& entry@.num_accessed <= MAX_ACCESS_COUNT
                        &&& !small.is_full()
                    },
                    None => rest.consistent(pending) && small.len == 0,
                }
            }),
    {
        self.small.lemma_pop_front();
    }

    /// An eviction from the main queue keeps the state consistent, leaves
    /// room in the main queue, and touches neither the small queue nor the
    /// ghost set.
    pub proof fn lemma_evict_main(self, pending: Set<K>)
        requires
            self.consistent(pending),
        ensures
            self.evict_main().consistent(pending),
            !self.evict_main().main.is_full(),
            self.evict_main().main.capacity() == self.main.capacity(),
            self.evict_main().small == self.small,
            self.evict_main().ghost_set == self.ghost_set,
        decreases eviction_budget(self.main, 0),
    {
        let (main, popped) = self.main.pop_front();
        let rest = ShardView { main, ..self };
        self.lemma_pop_main(pending);
        self.lemma_reinsertion_lowers_budget();
        if let Some(entry) = popped {
            if entry@.num_accessed > 0 {
                let lowered = entry.with_count((entry@.num_accessed - 1) as nat);
                rest.admit_to_main(lowered).lemma_evict_main(pending);
            }
        }
    }

    /// Admitting an entry to the main queue, with an eviction first where
    /// the queue is full, makes a state that was consistent but for the
    /// entry's key consistent for that key too.
    pub proof fn lemma_insert_into_main(self, entry: Entry<K, V>, pending: Set<K>)
        requires
            self.consistent(pending.insert(entry@.key)),
            !pending.contains(entry@.key),
            entry@.num_accessed <= MAX_ACCESS_COUNT,
        ensures
            self.insert_into_main(entry).consistent(pending),
            self.insert_into_main(entry).index.contains_key(entry@.key),
            self.insert_into_main(entry).entry_at(
                self.insert_into_main(entry).index[entry@.key],
            ) == entry,
            self.insert_into_main(entry).main.capacity() == self.main.capacity(),
            self.insert_into_main(entry).small == self.small,
            self.insert_into_main(entry).ghost_set == self.ghost_set,
    {
        if self.main.is_full() {
            self.lemma_evict_main(pending.insert(entry@.key));
        }
    }

    /// An eviction from the small queue keeps the state consistent and
    /// leaves room in the small queue.
    pub proof fn lemma_evict_small(self, pending: Set<K>, retired_hash: u64)
        requires
            self.consistent(pending),
        ensures
            self.evict_small(retired_hash).consistent(pending),
            !self.evict_small(retired_hash).small.is_full(),
            self.evict_small(retired_hash).capacity() == self.capacity(),
    {
        let (small, popped) = self.small.pop_front();
        let rest = ShardView { small, ..self };
        self.small.lemma_pop_front();
        if let Some(entry) = popped {
            if entry@.num_accessed > 1 {
                rest.lemma_insert_into_main(entry.with_count(0), pending);
            }
        }
    }

    /// Admitting an entry to the small queue, with an eviction first where
    /// the queue is full, makes a state that was consistent but for the
    /// entry's key consistent for that key too.
    pub proof fn lemma_insert_into_small(
        self,
        entry: Entry<K, V>,
        pending: Set<K>,
        retired_hash: u64,
    )
        requires
            self.consistent(pending.insert(entry@.key)),
            !pending.contains(entry@.key),
            entry@.num_accessed <= MAX_ACCESS_COUNT,
        ensures
            self.insert_into_small(entry, retired_hash).consistent(pending),
            self.insert_into_small(entry, retired_hash).index.contains_key(entry@.key),
            self.insert_into_small(entry, retired_hash).entry_at(
                self.insert_into_small(entry, retired_hash).index[entry@.key],
            ) == entry,
            self.insert_into_small(entry, retired_hash).capacity() == self.capacity(),
    {
        if self.small.is_full() {
            self.lemma_evict_small(pending.insert(entry@.key), retired_hash);
        }
    }

    /// An insert keeps the invariant and the capacity. Afterwards the shard
    /// holds the key with the value inserted, in an entry that was not read
    /// yet.
    pub proof fn lemma_insert(self, key: K, value: V, key_hash: u64, retired_hash: u64)
        requires
            self.wf(),
        ensures
            self.insert(key, value, key_hash, retired_hash).0.wf(),
            self.insert(key, value, key_hash, retired_hash).0.capacity() == self.capacity(),
            self.insert(key, value, key_hash, retired_hash).0.lookup(key) == Some(value),
            self.insert(key, value, key_hash, retired_hash).0.index.contains_key(key),
            self.insert(key, value, key_hash, retired_hash).0.entry_at(
                self.insert(key, value, key_hash, retired_hash).0.index[key],
            )@.num_accessed == 0,
            self.insert(key, value, key_hash, retired_hash).1 == self.lookup(key),
    {
        let entry = Entry::of(EntryView { key, value, num_accessed: 0 });
        let unlinked = self.unlink(key);
        if bucket_holds(self.ghost_set, key_hash, key) {
            unlinked.lemma_insert_into_main(entry, Set::empty());
        } else {
            unlinked.lemma_insert_into_small(entry, Set::empty(), retired_hash);
        }
    }

    /// A read keeps the invariant, the index, and the key and the value of
    /// every entry.
    pub proof fn lemma_get(self, key: K)
        requires
            self.wf(),
        ensures
            self.get(key).0.wf(),
            self.get(key).0.capacity() == self.capacity(),
            self.get(key).0.index == self.index,
            self.get(key).0.contents() == self.contents(),
            forall|other: K| (#[trigger] self.get(key).0.lookup(other)) == self.lookup(other),
            self.get(key).1 == self.lookup(key),
    {
    }
}

} // verus!
