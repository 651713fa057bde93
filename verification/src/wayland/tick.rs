//! Frame-tick queueing primitives.

use vstd::prelude::*;

use crate::timing::FrameTick;
use crate::wayland::queue::BoundedQueue;

verus! {

/// Default capacity of a [`TickQueue`].
pub const TICK_QUEUE_DEFAULT_CAPACITY: usize = 8;

/// Bounded queue for frame ticks.
///
/// Overflow drops the oldest tick, so the freshest pacing signal survives.
#[derive(Debug, Clone)]
pub struct TickQueue {
    inner: BoundedQueue<FrameTick>,
}

impl TickQueue {
    /// The queued ticks, oldest first.
    pub closed spec fn items(self) -> Seq<FrameTick> {
        self.inner.items()
    }

    /// The fixed capacity.
    pub closed spec fn capacity(self) -> usize {
        self.inner.capacity()
    }

    /// How many ticks overflow has discarded.
    pub closed spec fn dropped(self) -> u64 {
        self.inner.dropped()
    }

    /// The queue never holds more ticks than its capacity.
    pub open spec fn wf(self) -> bool {
        self.items().len() <= self.capacity() && self.capacity() >= 1
    }

    /// Creates an empty queue; a zero capacity is promoted to one.
    pub fn with_capacity(capacity: usize) -> (r: Self)
        ensures
            r.items() == Seq::<FrameTick>::empty(),
            capacity >= 1 ==> r.capacity() == capacity,
            capacity == 0 ==> r.capacity() == 1,
            r.dropped() == 0,
            r.wf(),
    {
        TickQueue { inner: BoundedQueue::with_capacity(capacity) }
    }

    /// Enqueues one tick, dropping the oldest when full.
    pub fn push(&mut self, tick: FrameTick)
        requires
            old(self).wf(),
        ensures
            final(self).wf(),
            final(self).capacity() == old(self).capacity(),
            old(self).items().len() < old(self).capacity() ==> final(self).items() == old(self).items().push(tick) && final(self).dropped() == old(self).dropped(),
            old(self).items().len() == old(self).capacity() ==> final(self).items() == old(self).items().drop_first().push(tick) && final(self).dropped() == (
            if old(self).dropped() < u64::MAX {
                old(self).dropped() + 1
            } else {
                old(self).dropped() as int
            }),
    {
        self.inner.push(tick);
    }

    /// Pops the oldest tick, if any.
    pub fn pop(&mut self) -> (r: Option<FrameTick>)
        ensures
            final(self).capacity() == old(self).capacity(),
            final(self).dropped() == old(self).dropped(),
            old(self).items().len() == 0 ==> r is None && final(self).items() == old(self).items(),
            old(self).items().len() > 0 ==> r == Some(old(self).items()[0]) && final(self).items() == old(self).items().drop_first(),
            old(self).wf() ==> final(self).wf(),
    {
        self.inner.pop()
    }

    /// Returns the current queue length.
    pub fn len(&self) -> (r: usize)
        ensures
            r == self.items().len(),
    {
        self.inner.len()
    }

    /// Returns whether no ticks are queued.
    pub fn is_empty(&self) -> (r: bool)
        ensures
            r == (self.items().len() == 0),
    {
        self.inner.is_empty()
    }

    /// Number of ticks dropped due to queue overflow.
    pub fn dropped_count(&self) -> (r: u64)
        ensures
            r == self.dropped(),
    {
        self.inner.dropped_count()
    }
}

impl Default for TickQueue {
    /// An empty queue with the default capacity.
    fn default() -> (r: Self)
        ensures
            r.items() == Seq::<FrameTick>::empty(),
            r.capacity() == TICK_QUEUE_DEFAULT_CAPACITY,
            r.dropped() == 0,
            r.wf(),
    {
        TickQueue::with_capacity(TICK_QUEUE_DEFAULT_CAPACITY)
    }
}

} // verus!
