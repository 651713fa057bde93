//! Internal bounded queue utilities.

use vstd::prelude::*;

use std::collections::VecDeque;

verus! {

/// Bounded FIFO queue with a drop-oldest overflow policy.
///
/// Once full, a new push removes the oldest item before inserting the newest.
#[derive(Debug, Clone)]
pub struct BoundedQueue<T> {
    items: VecDeque<T>,
    capacity: usize,
    dropped_count: u64,
}

impl<T> BoundedQueue<T> {
    /// The queued items, oldest first.
    pub closed spec fn items(self) -> Seq<T> {
        self.items@
    }

    /// The fixed capacity (always at least one).
    pub closed spec fn capacity(self) -> usize {
        self.capacity
    }

    /// How many items overflow has discarded.
    pub closed spec fn dropped(self) -> u64 {
        self.dropped_count
    }

    /// A queue never holds more than its capacity, which is at least one.
    pub open spec fn wf(self) -> bool {
        self.items().len() <= self.capacity() && self.capacity() >= 1
    }

    /// Creates an empty queue; a zero capacity is promoted to one.
    pub fn with_capacity(capacity: usize) -> (r: Self)
        ensures
            r.items() == Seq::<T>::empty(),
            capacity >= 1 ==> r.capacity() == capacity,
            capacity == 0 ==> r.capacity() == 1,
            r.dropped() == 0,
            r.wf(),
    {
        let capacity = if capacity >= 1 {
            capacity
        } else {
            1
        };
        BoundedQueue { items: VecDeque::with_capacity(capacity), capacity, dropped_count: 0 }
    }

    /// Enqueues one item; when the queue is full the oldest item is dropped
    /// first and the drop counter moves up (saturating).
    pub fn push(&mut self, item: T)
        requires
            old(self).wf(),
        ensures
            final(self).wf(),
            final(self).capacity() == old(self).capacity(),
            old(self).items().len() < old(self).capacity() ==> final(self).items() == old(self).items().push(item) && final(self).dropped() == old(self).dropped(),
            old(self).items().len() == old(self).capacity() ==> final(self).items() == old(self).items().drop_first().push(item) && final(self).dropped() == (
            if old(self).dropped() < u64::MAX {
                old(self).dropped() + 1
            } else {
                old(self).dropped() as int
            }),
    {
        if self.items.len() == self.capacity {
            let _ = self.items.pop_front();
            if self.dropped_count < u64::MAX {
                self.dropped_count = self.dropped_count + 1;
            }
        }
        self.items.push_back(item);
    }

    /// Pops the oldest item, if any.
    pub fn pop(&mut self) -> (r: Option<T>)
        ensures
            final(self).capacity() == old(self).capacity(),
            final(self).dropped() == old(self).dropped(),
            old(self).items().len() == 0 ==> r is None && final(self).items() == old(self).items(),
            old(self).items().len() > 0 ==> r == Some(old(self).items()[0]) && final(self).items() == old(self).items().drop_first(),
            old(self).wf() ==> final(self).wf(),
    {
        self.items.pop_front()
    }

    /// Returns the current queue length.
    pub fn len(&self) -> (r: usize)
        ensures
            r == self.items().len(),
    {
        self.items.len()
    }

    /// Returns whether no items are queued.
    pub fn is_empty(&self) -> (r: bool)
        ensures
            r == (self.items().len() == 0),
    {
        self.items.len() == 0
    }

    /// Number of items dropped due to queue overflow.
    pub fn dropped_count(&self) -> (r: u64)
        ensures
            r == self.dropped(),
    {
        self.dropped_count
    }
}

} // verus!
