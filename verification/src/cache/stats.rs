//! Hit, miss and eviction counts.
use vstd::prelude::*;

verus! {

/// A snapshot of a cache's counters, with the time since the last snapshot.
#[derive(Clone, PartialEq, Eq, PartialOrd, Ord, Hash, Debug, Structural)]
pub struct Stats {
    pub miss_count: u64,
    pub hit_count: u64,
    pub eviction_count: u64,
    pub millis_elapsed: u128,
}

impl Default for Stats {
    fn default() -> (stats: Self)
        ensures
            stats == (Stats { miss_count: 0, hit_count: 0, eviction_count: 0, millis_elapsed: 0 }),
    {
        Stats { miss_count: 0, hit_count: 0, eviction_count: 0, millis_elapsed: 0 }
    }
}

impl Stats {
    /// Whether the given counts can be added to this snapshot without
    /// leaving the range of its counts.
    pub open spec fn can_absorb(self, hits: u64, misses: u64, evictions: u64) -> bool {
        &&& self.hit_count + hits <= u64::MAX
        &&& self.miss_count + misses <= u64::MAX
        &&& self.eviction_count + evictions <= u64::MAX
    }

    /// The snapshot with the given counts added to it.
    pub open spec fn absorbed(self, hits: u64, misses: u64, evictions: u64) -> Stats {
        Stats {
            miss_count: (self.miss_count + misses) as u64,
            hit_count: (self.hit_count + hits) as u64,
            eviction_count: (self.eviction_count + evictions) as u64,
            millis_elapsed: self.millis_elapsed,
        }
    }

    /// Adds the counts of one shard to the snapshot.
    pub fn absorb(&mut self, hits: u64, misses: u64, evictions: u64)
        requires
            old(self).can_absorb(hits, misses, evictions),
        ensures
            *final(self) == old(self).absorbed(hits, misses, evictions),
    {
        self.hit_count += hits;
        self.miss_count += misses;
        self.eviction_count += evictions;
    }
}

/// The three counts that a shard keeps.
pub struct CountersView {
    pub hits: nat,
    pub misses: nat,
    pub evictions: nat,
}

impl CountersView {
    /// Counters that have counted nothing.
    pub open spec fn zero() -> Self {
        CountersView { hits: 0, misses: 0, evictions: 0 }
    }

    /// Whether these counters may follow `before` by an insert: an insert
    /// counts at most one eviction, and neither a hit nor a miss.
    pub open spec fn follows_by_insert(self, before: Self) -> bool {
        &&& self.hits == before.hits
        &&& self.misses == before.misses
        &&& self.evictions <= before.evictions + 1
    }

    /// Whether these counters may follow `before` by a read: a read counts
    /// at most one hit and at most one miss, and no eviction.
    pub open spec fn follows_by_read(self, before: Self) -> bool {
        &&& self.hits <= before.hits + 1
        &&& self.misses <= before.misses + 1
        &&& self.evictions == before.evictions
    }
}

/// A count raised by one, starting again at 0 after the highest value.
pub open spec fn wrapping_successor(count: nat) -> nat {
    if count >= u64::MAX {
        0
    } else {
        count + 1
    }
}

/// Counts of hits, misses and evictions. Each starts at 0 and wraps to 0
/// after `u64::MAX`.
#[derive(Debug)]
pub struct Counters {
    pub(crate) hit_count: u64,
    pub(crate) miss_count: u64,
    pub(crate) eviction_count: u64,
}

impl View for Counters {
    type V = CountersView;

    open(crate) spec fn view(&self) -> CountersView {
        CountersView {
            hits: self.hit_count as nat,
            misses: self.miss_count as nat,
            evictions: self.eviction_count as nat,
        }
    }
}

impl Default for Counters {
    fn default() -> (counters: Self)
        ensures
            counters@ == CountersView::zero(),
    {
        Counters { hit_count: 0, miss_count: 0, eviction_count: 0 }
    }
}

impl Counters {
    /// The number of hits counted.
    pub fn hit_count(&self) -> (count: u64)
        ensures
            count == self@.hits,
    {
        self.hit_count
    }

    /// The number of misses counted.
    pub fn miss_count(&self) -> (count: u64)
        ensures
            count == self@.misses,
    {
        self.miss_count
    }

    /// The number of evictions counted.
    pub fn eviction_count(&self) -> (count: u64)
        ensures
            count == self@.evictions,
    {
        self.eviction_count
    }

    /// Counts one more hit.
    pub fn increment_hit_count(&mut self)
        ensures
            final(self)@ == (CountersView {
                hits: wrapping_successor(old(self)@.hits),
                ..old(self)@
            }),
    {
        self.hit_count = self.hit_count.wrapping_add(1);
    }

    /// Counts one more miss.
    pub fn increment_miss_count(&mut self)
        ensures
            final(self)@ == (CountersView {
                misses: wrapping_successor(old(self)@.misses),
                ..old(self)@
            }),
    {
        self.miss_count = self.miss_count.wrapping_add(1);
    }

    /// Counts one more eviction.
    pub fn increment_eviction_count(&mut self)
        ensures
            final(self)@ == (CountersView {
                evictions: wrapping_successor(old(self)@.evictions),
                ..old(self)@
            }),
    {
        self.eviction_count = self.eviction_count.wrapping_add(1);
    }

    /// Sets the three counts to 0.
    pub fn reset(&mut self)
        ensures
            final(self)@ == CountersView::zero(),
    {
        self.hit_count = 0;
        self.miss_count = 0;
        self.eviction_count = 0;
    }
}

} // verus!
