//! A fixed-capacity circular buffer whose slots can be cleared in place.
use vstd::prelude::*;

verus! {

/// The state of a ring buffer: its slots by physical index, the physical
/// index of the oldest slot in use, and the number of slots in use. A slot in
/// use may be empty: removing an item leaves a hole that stays counted until
/// the head moves past it.
pub struct RingView<T> {
    pub slots: Seq<Option<T>>,
    pub head: int,
    pub len: int,
}

impl<T> RingView<T> {
    /// A buffer of `capacity` empty slots.
    pub open spec fn empty(capacity: int) -> Self {
        RingView { slots: Seq::new(capacity as nat, |i: int| None), head: 0, len: 0 }
    }

    /// The number of slots.
    pub open spec fn capacity(self) -> int {
        self.slots.len() as int
    }

    /// Whether no slot is in use.
    pub open spec fn is_empty(self) -> bool {
        self.len == 0
    }

    /// Whether every slot is in use, be it by an item or by a hole.
    pub open spec fn is_full(self) -> bool {
        self.len == self.capacity()
    }

    /// `i` reduced by one lap where it has passed the last slot.
    pub open spec fn wrap(self, i: int) -> int {
        if i >= self.capacity() {
            i - self.capacity()
        } else {
            i
        }
    }

    /// The physical index of the slot that the next push writes.
    pub open spec fn tail(self) -> int {
        self.wrap(self.head + self.len)
    }

    /// How many slots after `head` the physical index `i` lies, going round.
    pub open spec fn offset_of(self, i: int) -> int {
        if i >= self.head {
            i - self.head
        } else {
            i + self.capacity() - self.head
        }
    }

    /// Whether the physical index `i` is one of the `len` slots in use.
    pub open spec fn in_window(self, i: int) -> bool {
        0 <= i < self.capacity() && self.offset_of(i) < self.len
    }

    /// The head is a physical index (0 for a buffer without slots), at most
    /// `capacity` slots are in use, and every slot out of use is empty.
    pub open spec fn wf(self) -> bool {
        &&& 0 <= self.head < (if self.capacity() >= 1 { self.capacity() } else { 1 })
        &&& 0 <= self.len <= self.capacity()
        &&& forall|i: int|
            0 <= i < self.capacity() && !self.in_window(i) ==> (#[trigger] self.slots[i]) is None
    }

    /// The buffer after `value` was written at the tail.
    pub open spec fn push_back(self, value: T) -> Self {
        RingView {
            slots: self.slots.update(self.tail(), Some(value)),
            head: self.head,
            len: self.len + 1,
        }
    }

    /// The buffer after the slot at physical index `i` was cleared. Neither
    /// the head nor the number of slots in use changes.
    pub open spec fn remove(self, i: int) -> Self {
        RingView { slots: self.slots.update(i, None), head: self.head, len: self.len }
    }

    /// The buffer after the slot at the head was cleared and left behind.
    pub open spec fn advance(self) -> Self {
        RingView {
            slots: self.slots.update(self.head, None),
            head: self.wrap(self.head + 1),
            len: self.len - 1,
        }
    }

    /// The buffer after a pop, and the item popped: slots are left behind
    /// from the head on, up to and including the first one that holds an
    /// item; if none of the slots in use holds one, all are left behind.
    pub open spec fn pop_front(self) -> (Self, Option<T>)
        decreases self.len,
    {
        if self.len <= 0 {
            (self, None)
        } else {
            match self.slots[self.head] {
                Some(item) => (self.advance(), Some(item)),
                None => self.advance().pop_front(),
            }
        }
    }

    /// The tail is `head + len` modulo the capacity.
    pub proof fn lemma_tail_is_mod(self)
        requires
            self.wf(),
            self.capacity() >= 1,
        ensures
            self.tail() == (self.head + self.len) % self.capacity(),
    {
        let c = self.capacity();
        let s = self.head + self.len;
        if s >= c {
            assert(s % c == s - c) by {
                vstd::arithmetic::div_mod::lemma_fundamental_div_mod_converse(s, c, 1, s - c);
            }
        } else {
            vstd::arithmetic::div_mod::lemma_small_mod(s as nat, c as nat);
        }
    }

    /// The physical index of the first slot in use that holds an item, or
    /// -1 where none does.
    pub open spec fn front(self) -> int
        decreases self.len,
    {
        if self.len <= 0 {
            -1
        } else if self.slots[self.head] is Some {
            self.head
        } else {
            self.advance().front()
        }
    }

    /// What a pop does to a well-formed buffer. It hands out the item of the
    /// first slot in use that holds one and clears that slot, and changes no
    /// other slot; the buffer stays well formed and has fewer slots in use.
    /// Where no slot in use holds an item, no slot changes and none stays in
    /// use.
    pub proof fn lemma_pop_front(self)
        requires
            self.wf(),
        ensures
            self.pop_front().0.wf(),
            self.pop_front().0.capacity() == self.capacity(),
            self.pop_front().1 is Some <==> self.front() >= 0,
            self.pop_front().1 is Some ==> {
                &&& self.in_window(self.front())
                &&& self.slots[self.front()] == self.pop_front().1
                &&& self.pop_front().0.slots == self.slots.update(self.front(), None)
                &&& self.pop_front().0.len < self.len
            },
            self.pop_front().1 is None ==> {
                &&& self.pop_front().0.slots == self.slots
                &&& self.pop_front().0.len == 0
            },
        decreases self.len,
    {
        if self.len > 0 && self.slots[self.head] is None {
            self.advance().lemma_pop_front();
        }
    }
}

/// A circular buffer with a fixed number of slots. Items are pushed at the
/// tail and popped at the head; an item can also be taken out of any slot by
/// its physical index, which leaves a hole that a later pop skips.
#[derive(Debug)]
pub struct RingBuffer<T> {
    pub head: usize,
    pub len: usize,
    pub buffer: Vec<Option<T>>,
}

impl<T> View for RingBuffer<T> {
    type V = RingView<T>;

    open spec fn view(&self) -> RingView<T> {
        RingView { slots: self.buffer@, head: self.head as int, len: self.len as int }
    }
}

impl<T> RingBuffer<T> {
    /// The invariant of a ring buffer.
    pub open spec fn wf(&self) -> bool {
        self@.wf()
    }

    /// Makes a buffer of `capacity` empty slots.
    pub fn with_capacity(capacity: usize) -> (ring: RingBuffer<T>)
        ensures
            ring.wf(),
            ring@ == RingView::<T>::empty(capacity as int),
    {
        let mut buffer: Vec<Option<T>> = Vec::with_capacity(capacity);
        let mut filled: usize = 0;
        while filled < capacity
            invariant
                filled <= capacity,
                buffer@.len() == filled,
                forall|i: int| 0 <= i < filled ==> (#[trigger] buffer@[i]) is None,
            decreases capacity - filled,
        {
            buffer.push(None);
            filled += 1;
        }
        let ring = RingBuffer { head: 0, len: 0, buffer };
        assert(ring@.slots =~= RingView::<T>::empty(capacity as int).slots);
        ring
    }

    /// Whether no slot is in use.
    pub fn is_empty(&self) -> (empty: bool)
        ensures
            empty == self@.is_empty(),
    {
        self.len == 0
    }

    /// Whether every slot is in use, be it by an item or by a hole.
    pub fn is_full(&self) -> (full: bool)
        ensures
            full == self@.is_full(),
    {
        self.len == self.buffer.len()
    }

    /// The item in the slot at physical index `index`, if there is such a
    /// slot and it holds one.
    pub fn get(&self, index: usize) -> (item: Option<&T>)
        ensures
            index < self@.capacity() ==> match item {
                Some(found) => self@.slots[index as int] == Some(*found),
                None => self@.slots[index as int] is None,
            },
            index >= self@.capacity() ==> item is None,
    {
        if index < self.buffer.len() {
            self.buffer[index].as_ref()
        } else {
            None
        }
    }

    /// Adds an item at the tail and returns the physical index of its slot,
    /// or returns `None` and leaves the buffer as it is when it is full.
    pub fn push_back(&mut self, value: T) -> (index: Option<usize>)
        requires
            old(self).wf(),
        ensures
            final(self).wf(),
            old(self)@.is_full() ==> index is None && final(self)@ == old(self)@,
            !old(self)@.is_full() ==> index == Some(old(self)@.tail() as usize) && final(self)@
                == old(self)@.push_back(value),
    {
        if self.is_full() {
            return None;
        }
        assert(self@.capacity() == self.buffer.len());
        let physical_idx = self.wrap_add(self.head, self.len);
        self.buffer[physical_idx] = Some(value);
        self.len += 1;
        Some(physical_idx)
    }

    /// Pops the oldest item: the item of the first slot in use that holds
    /// one. That slot and the holes before it are left behind. `None` means
    /// that no slot in use held an item, and then none is in use any more.
    pub fn pop_front(&mut self) -> (item: Option<T>)
        requires
            old(self).wf(),
        ensures
            final(self).wf(),
            (final(self)@, item) == old(self)@.pop_front(),
            match item {
                Some(popped) => {
                    &&& old(self)@.in_window(old(self)@.front())
                    &&& old(self)@.slots[old(self)@.front()] == Some(popped)
                    &&& final(self)@.slots == old(self)@.slots.update(old(self)@.front(), None)
                    &&& final(self)@.len < old(self)@.len
                },
                None => final(self)@.slots == old(self)@.slots && final(self)@.len == 0,
            },
    {
        proof {
            old(self)@.lemma_pop_front();
        }
        if self.is_empty() {
            None
        } else {
            while self.len >= 1
                invariant
                    old(self).wf(),
                    self.wf(),
                    self@.pop_front() == old(self)@.pop_front(),
                decreases self.len,
            {
                let taken = self.buffer[self.head].take();
                assert(self@.capacity() == self.buffer.len());
                let next = self.wrap_add(self.head, 1);
                self.head = next;
                self.len -= 1;
                if taken.is_some() {
                    proof {
                        old(self)@.lemma_pop_front();
                    }
                    return taken;
                }
            }
            None
        }
    }

    /// Takes the item out of the slot at physical index `index`. The slot
    /// stays counted as in use until the head moves past it.
    pub fn remove(&mut self, index: usize) -> (item: Option<T>)
        requires
            old(self).wf(),
            index < old(self)@.capacity(),
        ensures
            final(self).wf(),
            item == old(self)@.slots[index as int],
            final(self)@ == old(self)@.remove(index as int),
    {
        self.buffer[index].take()
    }

    /// The physical index `addend` slots after `idx`, going round once:
    /// their sum, less the capacity where it reaches it.
    pub fn wrap_add(&self, idx: usize, addend: usize) -> (wrapped: usize)
        requires
            self@.wrap(idx + addend) <= usize::MAX,
        ensures
            wrapped == self@.wrap(idx + addend),
    {
        let capacity = self.buffer.len();
        if idx >= capacity {
            idx - capacity + addend
        } else if addend >= capacity - idx {
            addend - (capacity - idx)
        } else {
            idx + addend
        }
    }
}

} // verus!
