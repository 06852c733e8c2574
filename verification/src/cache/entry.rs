//! The cell that a queue holds for one key, and the index's pointer to it.
use vstd::prelude::*;

verus! {

/// The highest value that an access count takes.
pub const MAX_ACCESS_COUNT: u8 = 3;

/// Where the entry of a key lies: the queue, and the physical index of the
/// slot in that queue's ring buffer.
#[derive(Clone, Copy, Debug, PartialEq, Eq, Structural)]
pub enum EntryPointer {
    MainQueue(usize),
    SmallQueue(usize),
}

/// What an entry holds: a key, its value, and how often the entry was read
/// since it was admitted, counted up to `MAX_ACCESS_COUNT`.
pub struct EntryView<K, V> {
    pub key: K,
    pub value: V,
    pub num_accessed: nat,
}

/// The cell that a queue holds for one key. Its access count is at most
/// `MAX_ACCESS_COUNT` at all times.
pub struct Entry<K, V> {
    pub(crate) key: K,
    pub(crate) value: V,
    pub(crate) num_accessed: u8,
}

impl<K, V> View for Entry<K, V> {
    type V = EntryView<K, V>;

    open(crate) spec fn view(&self) -> EntryView<K, V> {
        EntryView { key: self.key, value: self.value, num_accessed: self.num_accessed as nat }
    }
}

impl<K, V> Entry<K, V> {
    /// The invariant of an entry.
    #[verifier::type_invariant]
    pub open(crate) spec fn bounded(self) -> bool {
        self.num_accessed <= MAX_ACCESS_COUNT
    }

    /// The entry that holds what `view` says.
    pub open(crate) spec fn of(view: EntryView<K, V>) -> Self {
        Entry { key: view.key, value: view.value, num_accessed: view.num_accessed as u8 }
    }

    /// This entry with `count` as its access count.
    pub open spec fn with_count(self, count: nat) -> Self {
        Self::of(EntryView { num_accessed: count, ..self@ })
    }

    /// This entry after one more read: the access count goes up by one
    /// until it has reached `MAX_ACCESS_COUNT`, and stays there.
    pub open spec fn touched(self) -> Self {
        if self@.num_accessed < MAX_ACCESS_COUNT {
            self.with_count(self@.num_accessed + 1)
        } else {
            self
        }
    }

    /// A fresh entry, not read yet.
    pub fn new(key: K, value: V) -> (entry: Self)
        ensures
            entry@ == (EntryView { key, value, num_accessed: 0 }),
    {
        Self { key, value, num_accessed: 0 }
    }

    /// Stores `val` as the access count.
    pub fn set_num_accessed(&mut self, val: u8)
        requires
            val <= MAX_ACCESS_COUNT,
        ensures
            final(self)@ == (EntryView { num_accessed: val as nat, ..old(self)@ }),
    {
        self.num_accessed = val;
    }

    /// The access count, which never exceeds `MAX_ACCESS_COUNT`.
    pub fn get_num_accessed(&self) -> (count: u8)
        ensures
            count == self@.num_accessed,
            count <= MAX_ACCESS_COUNT,
    {
        proof {
            use_type_invariant(self);
        }
        self.num_accessed
    }

    /// Raises the access count by one. `current_val` is the count that the
    /// caller read last: where the entry holds another count by now, that
    /// one is read again and raised instead.
    pub fn increment_num_accessed(&mut self, current_val: u8)
        requires
            old(self)@.num_accessed < MAX_ACCESS_COUNT,
        ensures
            final(self)@ == (EntryView {
                num_accessed: old(self)@.num_accessed + 1,
                ..old(self)@
            }),
    {
        let mut expected = current_val;
        while self.num_accessed != expected
            invariant
                self@ == old(self)@,
            decreases
                    (if self.num_accessed == expected {
                        0int
                    } else {
                        1int
                    }),
        {
            expected = self.num_accessed;
        }
        self.num_accessed = expected + 1;
    }
}

} // verus!
