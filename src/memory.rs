use vstd::arithmetic::div_mod::{lemma_mod_self_0, lemma_small_mod};
use vstd::prelude::*;

verus! {

/// The abstract state of a replay memory: its slots in physical order, the slot
/// that the next insertion overwrites once the memory is full, and its capacity.
pub struct RingState<T> {
    pub slots: Seq<T>,
    pub cursor: nat,
    pub capacity: nat,
}

impl<T> RingState<T> {
    /// A fresh memory of the given capacity.
    pub open spec fn empty(capacity: nat) -> Self {
        RingState { slots: Seq::empty(), cursor: 0, capacity }
    }

    /// The cursor stays below the capacity, and while the memory fills up it
    /// points just past the last slot written.
    pub open spec fn wf(self) -> bool {
        &&& self.slots.len() <= self.capacity
        &&& (self.capacity == 0 ==> self.cursor == 0)
        &&& (self.capacity > 0 ==> self.cursor < self.capacity)
        &&& (self.slots.len() < self.capacity ==> self.cursor == self.slots.len())
    }

    pub open spec fn is_full(self) -> bool {
        self.slots.len() == self.capacity
    }

    /// One insertion: append while there is room, otherwise overwrite the slot
    /// under the cursor; the cursor then moves on by one, modulo the capacity.
    /// With capacity zero nothing changes.
    pub open spec fn pushed(self, item: T) -> Self {
        if self.capacity == 0 {
            self
        } else if self.slots.len() < self.capacity {
            RingState {
                slots: self.slots.push(item),
                cursor: (self.cursor + 1) % self.capacity,
                capacity: self.capacity,
            }
        } else {
            RingState {
                slots: self.slots.update(self.cursor as int, item),
                cursor: (self.cursor + 1) % self.capacity,
                capacity: self.capacity,
            }
        }
    }

    /// The cursor after one insertion into a memory of positive capacity.
    proof fn lemma_next_cursor(self)
        requires
            self.wf(),
            self.capacity > 0,
        ensures
            (self.cursor + 1) % self.capacity == if self.cursor + 1 < self.capacity {
                self.cursor + 1
            } else {
                0
            },
    {
        if self.cursor + 1 < self.capacity {
            lemma_small_mod((self.cursor + 1) as nat, self.capacity);
        } else {
            lemma_mod_self_0(self.capacity as int);
        }
    }

    /// An insertion keeps the memory well formed, and so never lets it hold more
    /// items than its capacity.
    pub proof fn lemma_pushed_wf(self, item: T)
        requires
            self.wf(),
        ensures
            self.pushed(item).wf(),
            self.pushed(item).capacity == self.capacity,
            self.pushed(item).slots.len() <= self.capacity,
    {
        if self.capacity > 0 {
            self.lemma_next_cursor();
        }
    }

    /// Insertion of each item of `items`, in order.
    pub open spec fn pushed_all(self, items: Seq<T>) -> Self
        decreases items.len(),
    {
        if items.len() == 0 {
            self
        } else {
            self.pushed_all(items.drop_last()).pushed(items.last())
        }
    }
}

/// The error of an indexed read at or past the number of items held.
#[derive(Debug, Clone, Copy, PartialEq, Eq, Structural)]
pub struct OutOfRange {
    pub index: usize,
    pub len: usize,
}

/// A replay memory of fixed capacity.
pub struct ReplayMemory<T> {
    index: usize,
    capacity: usize,
    data: Vec<T>,
}

impl<T> View for ReplayMemory<T> {
    type V = RingState<T>;

    closed spec fn view(&self) -> RingState<T> {
        RingState { slots: self.data@, cursor: self.index as nat, capacity: self.capacity as nat }
    }
}

impl<T> ReplayMemory<T> {
    /// Returns a replay memory with the given capacity and no items.
    pub fn new(capacity: usize) -> (r: Self)
        ensures
            r@ == RingState::<T>::empty(capacity as nat),
            r@.wf(),
    {
        ReplayMemory { index: 0, capacity, data: Vec::with_capacity(capacity) }
    }

    /// The number of items held.
    pub fn len(&self) -> (r: usize)
        ensures
            r == self@.slots.len(),
    {
        self.data.len()
    }

    /// The items held, in physical slot order.
    pub fn items(&self) -> (r: &Vec<T>)
        ensures
            r@ == self@.slots,
    {
        &self.data
    }

    /// The capacity fixed at construction.
    pub fn capacity(&self) -> (r: usize)
        ensures
            r == self@.capacity,
    {
        self.capacity
    }

    /// Whether the memory holds as many items as its capacity. A memory of
    /// capacity zero is always full.
    pub fn is_full(&self) -> (r: bool)
        ensures
            r == self@.is_full(),
    {
        self.data.len() == self.capacity
    }

    /// Whether the memory holds no items.
    pub fn is_empty(&self) -> (r: bool)
        ensures
            r == (self@.slots.len() == 0),
    {
        self.data.len() == 0
    }

    /// The item in the given slot, which must be occupied.
    pub(crate) fn slot(&self, index: usize) -> (r: &T)
        requires
            index < self@.slots.len(),
        ensures
            *r == self@.slots[index as int],
    {
        &self.data[index]
    }

    /// Returns the item in the given physical slot, or `OutOfRange` when the
    /// index is not below the number of items held.
    pub fn get(&self, index: usize) -> (r: Result<&T, OutOfRange>)
        ensures
            index < self@.slots.len() ==> r == Ok::<&T, OutOfRange>(&self@.slots[index as int]),
            index >= self@.slots.len() ==> r == Err::<&T, OutOfRange>(
                OutOfRange { index, len: self@.slots.len() as usize },
            ),
    {
        if index < self.data.len() {
            Ok(&self.data[index])
        } else {
            Err(OutOfRange { index, len: self.data.len() })
        }
    }

    /// Pushes an item in, overwriting the oldest one once the memory is full.
    /// With capacity zero the item is dropped.
    pub fn push(&mut self, item: T)
        requires
            old(self)@.wf(),
        ensures
            final(self)@ == old(self)@.pushed(item),
            final(self)@.wf(),
    {
        proof {
            old(self)@.lemma_pushed_wf(item);
        }
        if self.capacity == 0 {
            return;
        }
        if self.data.len() < self.capacity {
            self.data.push(item);
        } else {
            self.data.set(self.index, item);
        }
        self.index = (self.index + 1) % self.capacity;
    }

    /// Pushes each of `items` in, in order.
    pub fn push_items(&mut self, items: Vec<T>)
        requires
            old(self)@.wf(),
        ensures
            final(self)@ == old(self)@.pushed_all(items@),
            final(self)@.wf(),
    {
        let ghost start = self@;
        for item in it: items
            invariant
                self@ == start.pushed_all(it.seq().take(it.index() as int)),
                self@.wf(),
                it.seq() == items@,
        {
            proof {
                let done = it.seq().take(it.index() as int);
                let next = it.seq().take(it.index() + 1);
                assert(next.drop_last() =~= done);
            }
            self.push(item);
        }
        proof {
            assert(items@.take(items@.len() as int) =~= items@);
        }
    }
}

} // verus!
