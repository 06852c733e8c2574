//! What holds of every well-formed shard and of every run of its operations.
use crate::cache::entry::Entry;
use crate::cache::entry::EntryPointer;
use crate::cache::entry::EntryView;
use crate::cache::entry::MAX_ACCESS_COUNT;
use crate::cache::fixed_size_hash_table::bucket_holds;
use crate::cache::shard_model::eviction_budget;
use crate::cache::shard_model::lemma_budget_bound;
use crate::cache::shard_model::lemma_budget_pop_front;
use crate::cache::shard_model::ShardView;
use crate::cache::stats::CountersView;
use vstd::prelude::*;
use vstd::set_lib::lemma_int_range;
use vstd::set_lib::lemma_len_subset;
use vstd::set_lib::lemma_map_size;
use vstd::set_lib::set_int_range;

verus! {

impl<K, V> ShardView<K, V> {
    /// Whether every key that this state holds, but for those in `except`,
    /// was held by `before` with the same value.
    pub open spec fn keeps(self, before: Self, except: Set<K>) -> bool {
        forall|key: K| #[trigger]
            self.index.contains_key(key) && !except.contains(key) ==> before.index.contains_key(key)
                && self.entry_at(self.index[key])@.value == before.entry_at(
                before.index[key],
            )@.value
    }

    /// The place of a key among the slots in use of both queues, counted
    /// from the head of the small queue on and then from the head of the
    /// main queue.
    pub open spec fn position(self, key: K) -> int {
        match self.index[key] {
            EntryPointer::SmallQueue(i) => self.small.offset_of(i as int),
            EntryPointer::MainQueue(i) => self.small.len + self.main.offset_of(i as int),
        }
    }

    /// The number of entries that an eviction from the main queue pops
    /// with an item in hand: each entry that it sends back to the tail, and
    /// the one that leaves.
    pub open spec fn eviction_steps(self) -> nat
        decreases eviction_budget(self.main, 0),
        when self.main.wf()
        via Self::eviction_steps_decreases
    {
        let (main, popped) = self.main.pop_front();
        match popped {
            None => 0,
            Some(entry) => if entry@.num_accessed > 0 {
                1 + (ShardView { main, ..self }).admit_to_main(
                    entry.with_count((entry@.num_accessed - 1) as nat),
                ).eviction_steps()
            } else {
                1
            },
        }
    }

    #[via_fn]
    proof fn eviction_steps_decreases(self) {
        self.lemma_reinsertion_lowers_budget();
    }

    /// The key that an eviction from the main queue lets go: the key of the
    /// first entry that is popped with an access count of 0, if the queue
    /// holds an entry at all.
    pub open spec fn main_victim(self) -> Option<K>
        decreases eviction_budget(self.main, 0),
        when self.main.wf()
        via Self::main_victim_decreases
    {
        let (main, popped) = self.main.pop_front();
        match popped {
            None => None,
            Some(entry) => if entry@.num_accessed > 0 {
                (ShardView { main, ..self }).admit_to_main(
                    entry.with_count((entry@.num_accessed - 1) as nat),
                ).main_victim()
            } else {
                Some(entry@.key)
            },
        }
    }

    #[via_fn]
    proof fn main_victim_decreases(self) {
        self.lemma_reinsertion_lowers_budget();
    }

    /// The key that an insert of `entry` into the main queue lets go: the
    /// one that the eviction lets go, where the queue is full.
    pub open spec fn main_insert_victim(self) -> Option<K> {
        if self.main.is_full() {
            self.main_victim()
        } else {
            None
        }
    }

    /// The key that an eviction from the small queue lets go: the key of
    /// the entry popped where that was read at most once, and else the key
    /// that its promotion pushes out of the main queue.
    pub open spec fn small_victim(self) -> Option<K> {
        let (small, popped) = self.small.pop_front();
        match popped {
            None => None,
            Some(entry) => if entry@.num_accessed > 1 {
                (ShardView { small, ..self }).main_insert_victim()
            } else {
                Some(entry@.key)
            },
        }
    }

    /// The key that an insert of `key` lets go, if it lets one go.
    pub open spec fn insert_victim(self, key: K, key_hash: u64) -> Option<K> {
        let unlinked = self.unlink(key);
        if bucket_holds(self.ghost_set, key_hash, key) {
            unlinked.main_insert_victim()
        } else if unlinked.small.is_full() {
            unlinked.small_victim()
        } else {
            None
        }
    }

    /// The counters after the eviction of the victim, if there is one, was
    /// counted.
    pub open spec fn counted_eviction_of(self, victim: Option<K>) -> CountersView {
        match victim {
            Some(_) => self.count_eviction().counters,
            None => self.counters,
        }
    }

    /// The keys of `keys` but for the victim, if there is one.
    pub open spec fn without(keys: Set<K>, victim: Option<K>) -> Set<K> {
        match victim {
            Some(key) => keys.remove(key),
            None => keys,
        }
    }

    /// An eviction from the main queue lets at most one key go: its
    /// victim.
    pub proof fn lemma_evict_main_victim(self, pending: Set<K>)
        requires
            self.consistent(pending),
        ensures
            self.evict_main().index.dom() == Self::without(self.index.dom(), self.main_victim()),
            self.main_victim() matches Some(key) ==> self.index.contains_key(key)
                && !pending.contains(key),
            self.evict_main().counters == self.counted_eviction_of(self.main_victim()),
        decreases eviction_budget(self.main, 0),
    {
        let (main, popped) = self.main.pop_front();
        let rest = ShardView { main, ..self };
        self.lemma_pop_main(pending);
        self.lemma_reinsertion_lowers_budget();
        if let Some(entry) = popped {
            if entry@.num_accessed > 0 {
                let lowered = entry.with_count((entry@.num_accessed - 1) as nat);
                let again = rest.admit_to_main(lowered);
                again.lemma_evict_main_victim(pending);
                assert(again.index.dom() =~= self.index.dom());
            }
        }
    }

    /// An eviction from the small queue lets at most one key go: its
    /// victim.
    pub proof fn lemma_evict_small_victim(self, pending: Set<K>, retired_hash: u64)
        requires
            self.consistent(pending),
        ensures
            self.evict_small(retired_hash).index.dom() == Self::without(
                self.index.dom(),
                self.small_victim(),
            ),
            self.small_victim() matches Some(key) ==> self.index.contains_key(key)
                && !pending.contains(key),
            self.evict_small(retired_hash).counters == self.counted_eviction_of(
                self.small_victim(),
            ),
    {
        let (small, popped) = self.small.pop_front();
        let rest = ShardView { small, ..self };
        self.lemma_pop_small(pending);
        if let Some(entry) = popped {
            if entry@.num_accessed > 1 {
                let except = pending.insert(entry@.key);
                let promoted = entry.with_count(0);
                if rest.main.is_full() {
                    rest.lemma_evict_main(except);
                    rest.lemma_evict_main_victim(except);
                }
                assert(rest.insert_into_main(promoted).index.dom() =~= Self::without(
                    self.index.dom(),
                    self.small_victim(),
                ));
            }
        }
    }

    /// An insert lets at most one key go: afterwards the shard holds the
    /// key inserted and the keys that it held before, but for the victim of
    /// the insert, which is another key than the one inserted. The insert
    /// counts one eviction where it has a victim, and changes no other
    /// counter.
    pub proof fn lemma_insert_victim(self, key: K, value: V, key_hash: u64, retired_hash: u64)
        requires
            self.wf(),
        ensures
            self.insert(key, value, key_hash, retired_hash).0.index.dom() == Self::without(
                self.index.dom().insert(key),
                self.insert_victim(key, key_hash),
            ),
            self.insert_victim(key, key_hash) matches Some(victim) ==> victim != key
                && self.index.contains_key(victim),
            self.insert(key, value, key_hash, retired_hash).0.counters
                == self.counted_eviction_of(self.insert_victim(key, key_hash)),
    {
        let except = Set::<K>::empty().insert(key);
        let entry = Entry::of(EntryView { key, value, num_accessed: 0 });
        let unlinked = self.unlink(key);
        let after = self.insert(key, value, key_hash, retired_hash).0;
        if bucket_holds(self.ghost_set, key_hash, key) {
            if unlinked.main.is_full() {
                unlinked.lemma_evict_main(except);
                unlinked.lemma_evict_main_victim(except);
            }
        } else {
            if unlinked.small.is_full() {
                unlinked.lemma_evict_small(except, retired_hash);
                unlinked.lemma_evict_small_victim(except, retired_hash);
            }
        }
        assert(after.index.dom() =~= Self::without(
            self.index.dom().insert(key),
            self.insert_victim(key, key_hash),
        ));
    }

    /// In a well-formed shard the pointer of every key in the index leads
    /// to an occupied slot whose entry has that key.
    pub proof fn lemma_pointers_lead_to_their_keys(self, key: K)
        requires
            self.wf(),
            self.index.contains_key(key),
        ensures
            self.points_to(self.index[key], key),
            self.entry_at(self.index[key])@.key == key,
            self.entry_at(self.index[key])@.num_accessed <= MAX_ACCESS_COUNT,
    {
    }

    /// In a well-formed shard every occupied slot of the main queue has
    /// exactly one key in the index that points to it: the key of its
    /// entry. That entry's access count is at most `MAX_ACCESS_COUNT`.
    pub proof fn lemma_main_slot_has_one_pointer(self, i: int)
        requires
            self.wf(),
            0 <= i < self.main.capacity(),
            self.main.slots[i] is Some,
        ensures
            self.index.contains_key(self.main.slots[i].unwrap()@.key),
            forall|key: K|
                self.index.contains_key(key) ==> (self.index[key] == EntryPointer::MainQueue(
                    i as usize,
                ) <==> key == self.main.slots[i].unwrap()@.key),
            self.main.slots[i].unwrap()@.num_accessed <= MAX_ACCESS_COUNT,
            self.main.in_window(i),
    {
    }

    /// In a well-formed shard every occupied slot of the small queue has
    /// exactly one key in the index that points to it: the key of its
    /// entry. That entry's access count is at most `MAX_ACCESS_COUNT`.
    pub proof fn lemma_small_slot_has_one_pointer(self, i: int)
        requires
            self.wf(),
            0 <= i < self.small.capacity(),
            self.small.slots[i] is Some,
        ensures
            self.index.contains_key(self.small.slots[i].unwrap()@.key),
            forall|key: K|
                self.index.contains_key(key) ==> (self.index[key] == EntryPointer::SmallQueue(
                    i as usize,
                ) <==> key == self.small.slots[i].unwrap()@.key),
            self.small.slots[i].unwrap()@.num_accessed <= MAX_ACCESS_COUNT,
            self.small.in_window(i),
    {
    }

    /// A well-formed shard holds at most as many keys as its queues have
    /// slots in use, and so at most as many as they have slots.
    pub proof fn lemma_index_is_bounded(self)
        requires
            self.wf(),
        ensures
            self.index.dom().len() <= self.small.len + self.main.len,
            self.index.dom().len() <= self.small.capacity() + self.main.capacity(),
    {
        let keys = self.index.dom();
        let place = |key: K| self.position(key);
        let places = keys.map(place);
        let all = set_int_range(0, self.small.len + self.main.len);
        lemma_map_size(keys, places, place);
        lemma_int_range(0, self.small.len + self.main.len);
        lemma_len_subset(places, all);
    }

    /// An eviction from the main queue pops at most four entries for each
    /// slot in use: an entry goes back to the tail at most
    /// `MAX_ACCESS_COUNT` times before it leaves.
    pub proof fn lemma_eviction_steps_are_bounded(self, pending: Set<K>)
        requires
            self.consistent(pending),
        ensures
            self.eviction_steps() <= eviction_budget(self.main, 0),
            self.eviction_steps() <= 4 * self.main.len,
    {
        self.lemma_steps_within_budget(pending);
        lemma_budget_bound(self.main, 0);
    }

    /// An eviction from the main queue pops no more entries than the
    /// budget of the queue says.
    pub proof fn lemma_steps_within_budget(self, pending: Set<K>)
        requires
            self.consistent(pending),
        ensures
            self.eviction_steps() <= eviction_budget(self.main, 0),
        decreases eviction_budget(self.main, 0),
    {
        let (main, popped) = self.main.pop_front();
        let rest = ShardView { main, ..self };
        self.lemma_pop_main(pending);
        self.lemma_reinsertion_lowers_budget();
        lemma_budget_pop_front(self.main);
        if let Some(entry) = popped {
            if entry@.num_accessed > 0 {
                let lowered = entry.with_count((entry@.num_accessed - 1) as nat);
                rest.admit_to_main(lowered).lemma_steps_within_budget(pending);
            }
        }
    }

    /// An eviction from the main queue adds no key and changes no value.
    pub proof fn lemma_evict_main_keeps(self, pending: Set<K>)
        requires
            self.consistent(pending),
        ensures
            self.evict_main().keeps(self, pending),
        decreases eviction_budget(self.main, 0),
    {
        let (main, popped) = self.main.pop_front();
        let rest = ShardView { main, ..self };
        self.lemma_pop_main(pending);
        self.main.lemma_pop_front();
        self.lemma_reinsertion_lowers_budget();
        if let Some(entry) = popped {
            if entry@.num_accessed > 0 {
                let lowered = entry.with_count((entry@.num_accessed - 1) as nat);
                rest.admit_to_main(lowered).lemma_evict_main_keeps(pending);
            }
        }
    }

    /// Admitting an entry to the main queue adds no key but the entry's and
    /// changes no value of another key.
    pub proof fn lemma_insert_into_main_keeps(self, entry: Entry<K, V>, pending: Set<K>)
        requires
            self.consistent(pending.insert(entry@.key)),
            !pending.contains(entry@.key),
            entry@.num_accessed <= MAX_ACCESS_COUNT,
        ensures
            self.insert_into_main(entry).keeps(self, pending.insert(entry@.key)),
    {
        let except = pending.insert(entry@.key);
        if self.main.is_full() {
            self.lemma_evict_main(except);
            self.lemma_evict_main_keeps(except);
        }
    }

    /// An eviction from the small queue adds no key and changes no value.
    pub proof fn lemma_evict_small_keeps(self, pending: Set<K>, retired_hash: u64)
        requires
            self.consistent(pending),
        ensures
            self.evict_small(retired_hash).keeps(self, pending),
    {
        let (small, popped) = self.small.pop_front();
        let rest = ShardView { small, ..self };
        self.small.lemma_pop_front();
        if let Some(entry) = popped {
            if entry@.num_accessed > 1 {
                let promoted = entry.with_count(0);
                rest.lemma_insert_into_main(promoted, pending);
                rest.lemma_insert_into_main_keeps(promoted, pending);
            }
        }
    }

    /// Admitting an entry to the small queue adds no key but the entry's
    /// and changes no value of another key.
    pub proof fn lemma_insert_into_small_keeps(
        self,
        entry: Entry<K, V>,
        pending: Set<K>,
        retired_hash: u64,
    )
        requires
            self.consistent(pending.insert(entry@.key)),
            !pending.contains(entry@.key),
            entry@.num_accessed <= MAX_ACCESS_COUNT,
        ensures
            self.insert_into_small(entry, retired_hash).keeps(self, pending.insert(entry@.key)),
    {
        let except = pending.insert(entry@.key);
        if self.small.is_full() {
            self.lemma_evict_small(except, retired_hash);
            self.lemma_evict_small_keeps(except, retired_hash);
        }
    }

    /// An insert changes the shard for no key but its own, except that
    /// other keys may leave: every other key that the shard holds
    /// afterwards was held before, with the same value.
    pub proof fn lemma_insert_keeps_other_keys(
        self,
        key: K,
        value: V,
        key_hash: u64,
        retired_hash: u64,
    )
        requires
            self.wf(),
        ensures
            self.insert(key, value, key_hash, retired_hash).0.keeps(self, Set::empty().insert(key)),
            self.insert(key, value, key_hash, retired_hash).0.contents().remove(key).submap_of(
                self.contents(),
            ),
            forall|other: K|
                other != key && (#[trigger] self.insert(
                    key,
                    value,
                    key_hash,
                    retired_hash,
                ).0.lookup(other)) is Some ==> self.insert(
                    key,
                    value,
                    key_hash,
                    retired_hash,
                ).0.lookup(other) == self.lookup(other),
    {
        let entry = Entry::of(EntryView { key, value, num_accessed: 0 });
        let unlinked = self.unlink(key);
        if bucket_holds(self.ghost_set, key_hash, key) {
            unlinked.lemma_insert_into_main_keeps(entry, Set::empty());
        } else {
            unlinked.lemma_insert_into_small_keeps(entry, Set::empty(), retired_hash);
        }
    }

    /// Inserting a key twice: the second insert returns the value of the
    /// first, and a read after it finds the value of the second.
    pub proof fn lemma_update_overwrites_and_returns_prior(
        self,
        key: K,
        first: V,
        second: V,
        first_hashes: (u64, u64),
        second_hashes: (u64, u64),
    )
        requires
            self.wf(),
        ensures
            ({
                let once = self.insert(key, first, first_hashes.0, first_hashes.1).0;
                let (twice, prior) = once.insert(key, second, second_hashes.0, second_hashes.1);
                prior == Some(first) && twice.get(key).1 == Some(second)
            }),
    {
        let once = self.insert(key, first, first_hashes.0, first_hashes.1).0;
        self.lemma_insert(key, first, first_hashes.0, first_hashes.1);
        once.lemma_insert(key, second, second_hashes.0, second_hashes.1);
    }

    /// A read of a key that the shard does not hold finds nothing, counts
    /// one miss and changes nothing else; the key is still not held after
    /// it, so that the next read of it finds nothing either.
    pub proof fn lemma_miss_changes_no_membership(self, key: K)
        requires
            !self.index.contains_key(key),
        ensures
            self.get(key).1 is None,
            self.get(key).0.index == self.index,
            self.get(key).0.small == self.small,
            self.get(key).0.main == self.main,
            self.get(key).0.ghost_set == self.ghost_set,
            self.get(key).0.get(key).1 is None,
    {
    }

    /// An entry that was read more than once when the small queue evicts
    /// it is promoted: it goes to the main queue with its value and an
    /// access count of 0, and the ghost set is not touched.
    pub proof fn lemma_promotion(self, retired_hash: u64)
        requires
            self.wf(),
            self.small.pop_front().1 is Some,
            self.small.pop_front().1.unwrap()@.num_accessed > 1,
        ensures
            ({
                let entry = self.small.pop_front().1.unwrap();
                let promoted = self.evict_small(retired_hash);
                &&& promoted.wf()
                &&& promoted.index.contains_key(entry@.key)
                &&& promoted.index[entry@.key] is MainQueue
                &&& promoted.entry_at(promoted.index[entry@.key]) == entry.with_count(0)
                &&& promoted.lookup(entry@.key) == self.lookup(entry@.key)
                &&& promoted.ghost_set == self.ghost_set
            }),
    {
        let (small, popped) = self.small.pop_front();
        let rest = ShardView { small, ..self };
        self.lemma_pop_small(Set::empty());
        self.small.lemma_pop_front();
        rest.lemma_insert_into_main(popped.unwrap().with_count(0), Set::empty());
    }

    /// A key that the small queue retires comes back into the main queue:
    /// where an eviction from the small queue pops an entry that was read at
    /// most once, the key of that entry leaves the shard, and the next
    /// insert of that key, under the same hash, admits it to the main queue.
    pub proof fn lemma_ghost_revival(self, hash: u64, value: V, retired_hash: u64)
        requires
            self.wf(),
            self.small.pop_front().1 is Some,
            self.small.pop_front().1.unwrap()@.num_accessed <= 1,
        ensures
            ({
                let key = self.small.pop_front().1.unwrap()@.key;
                let retired = self.evict_small(hash);
                let revived = retired.insert(key, value, hash, retired_hash).0;
                &&& !retired.index.contains_key(key)
                &&& bucket_holds(retired.ghost_set, hash, key)
                &&& revived.index.contains_key(key)
                &&& revived.index[key] is MainQueue
                &&& revived.lookup(key) == Some(value)
            }),
    {
        let key = self.small.pop_front().1.unwrap()@.key;
        self.lemma_pop_small(Set::empty());
        self.evict_small(hash).lemma_insert(key, value, hash, retired_hash);
    }
}

} // verus!
