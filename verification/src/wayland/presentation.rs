//! Presentation feedback contracts and queueing.

use vstd::prelude::*;

use crate::output::OutputId;
use crate::time::HostTime;
use crate::wayland::queue::BoundedQueue;

verus! {

/// Default capacity of a [`PresentEventQueue`].
pub const PRESENT_EVENT_QUEUE_DEFAULT_CAPACITY: usize = 64;

/// Unique identity for one surface-commit submission.
#[derive(Clone, Copy, PartialEq, Eq, Structural, PartialOrd, Ord, Hash, Debug)]
pub struct SubmissionId(pub u64);

/// Per-commit presentation feedback event.
#[derive(Clone, Copy, PartialEq, Eq, Structural, Hash, Debug)]
pub enum PresentEvent {
    /// The submission was presented.
    Presented {
        /// Identity of the commit this event corresponds to.
        id: SubmissionId,
        /// Actual presentation timestamp in backend host ticks.
        actual_present: HostTime,
        /// Observed refresh interval in host ticks, if known.
        refresh_interval: Option<u64>,
        /// Output where the frame was shown, if known.
        output: Option<OutputId>,
        /// Raw protocol flags.
        flags: u32,
    },
    /// The compositor discarded the submission.
    Discarded {
        /// Identity of the commit this event corresponds to.
        id: SubmissionId,
    },
}

/// Bounded FIFO queue for [`PresentEvent`] values.
///
/// Overflow drops the oldest event, keeping the newest feedback available
/// to the host under backpressure.
#[derive(Debug, Clone)]
pub struct PresentEventQueue {
    inner: BoundedQueue<PresentEvent>,
}

impl PresentEventQueue {
    /// The queued events, oldest first.
    pub closed spec fn items(self) -> Seq<PresentEvent> {
        self.inner.items()
    }

    /// The fixed capacity.
    pub closed spec fn capacity(self) -> usize {
        self.inner.capacity()
    }

    /// How many events overflow has discarded.
    pub closed spec fn dropped(self) -> u64 {
        self.inner.dropped()
    }

    /// The queue never holds more events than its capacity.
    pub open spec fn wf(self) -> bool {
        self.items().len() <= self.capacity() && self.capacity() >= 1
    }

    /// Creates a queue with an explicit capacity; zero is promoted to one.
    pub fn with_capacity(capacity: usize) -> (r: Self)
        ensures
            r.items() == Seq::<PresentEvent>::empty(),
            capacity >= 1 ==> r.capacity() == capacity,
            capacity == 0 ==> r.capacity() == 1,
            r.dropped() == 0,
            r.wf(),
    {
        PresentEventQueue { inner: BoundedQueue::with_capacity(capacity) }
    }

    /// Enqueues one presentation event, dropping the oldest when full.
    pub fn push(&mut self, event: PresentEvent)
        requires
            old(self).wf(),
        ensures
            final(self).wf(),
            final(self).capacity() == old(self).capacity(),
            old(self).items().len() < old(self).capacity() ==> final(self).items() == old(self).items().push(event) && final(self).dropped() == old(self).dropped(),
            old(self).items().len() == old(self).capacity() ==> final(self).items() == old(self).items().drop_first().push(event) && final(self).dropped() == (
            if old(self).dropped() < u64::MAX {
                old(self).dropped() + 1
            } else {
                old(self).dropped() as int
            }),
    {
        self.inner.push(event);
    }

    /// Pops the oldest queued event, if any.
    pub fn pop(&mut self) -> (r: Option<PresentEvent>)
        ensures
            final(self).capacity() == old(self).capacity(),
            final(self).dropped() == old(self).dropped(),
            old(self).items().len() == 0 ==> r is None && final(self).items() == old(self).items(),
            old(self).items().len() > 0 ==> r == Some(old(self).items()[0]) && final(self).items() == old(self).items().drop_first(),
            old(self).wf() ==> final(self).wf(),
    {
        self.inner.pop()
    }

    /// Returns the current queue length.
    pub fn len(&self) -> (r: usize)
        ensures
            r == self.items().len(),
    {
        self.inner.len()
    }

    /// Returns whether no events are queued.
    pub fn is_empty(&self) -> (r: bool)
        ensures
            r == (self.items().len() == 0),
    {
        self.inner.is_empty()
    }

    /// Number of events dropped due to queue overflow.
    pub fn dropped_count(&self) -> (r: u64)
        ensures
            r == self.dropped(),
    {
        self.inner.dropped_count()
    }
}

impl Default for PresentEventQueue {
    /// An empty queue with the default capacity.
    fn default() -> (r: Self)
        ensures
            r.items() == Seq::<PresentEvent>::empty(),
            r.capacity() == PRESENT_EVENT_QUEUE_DEFAULT_CAPACITY,
            r.dropped() == 0,
            r.wf(),
    {
        PresentEventQueue::with_capacity(PRESENT_EVENT_QUEUE_DEFAULT_CAPACITY)
    }
}

} // verus!
