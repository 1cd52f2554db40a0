//! The delivery channel: a first-in, first-out queue that carries events,
//! each with the recipients it was resolved to, to the dispatcher.

use crate::event::{LogEvent, LogEventView};
use crate::registry::RecipientId;
use std::collections::VecDeque;
use vstd::prelude::*;

verus! {

/// A queued event together with the recipients it was resolved to.
pub struct QueueEntry {
    pub event: LogEvent,
    pub targets: Vec<RecipientId>,
}

/// What a queue entry holds.
pub ghost struct QueueEntryView {
    pub event: LogEventView,
    pub targets: Seq<RecipientId>,
}

impl View for QueueEntry {
    type V = QueueEntryView;

    open spec fn view(&self) -> QueueEntryView {
        QueueEntryView { event: self.event@, targets: self.targets@ }
    }
}

/// The queue between the log call sites and the dispatcher.
///
/// It may be bounded. A full or closed channel refuses an entry at once: an
/// enqueue never waits.
pub struct DispatchChannel {
    entries: VecDeque<QueueEntry>,
    capacity: Option<usize>,
    closed: bool,
}

impl View for DispatchChannel {
    type V = Seq<QueueEntryView>;

    closed spec fn view(&self) -> Seq<QueueEntryView> {
        self.entries@.map_values(|e: QueueEntry| e@)
    }
}

impl DispatchChannel {
    pub closed spec fn spec_is_closed(&self) -> bool {
        self.closed
    }

    /// The bound on the number of queued entries, if there is one.
    pub closed spec fn spec_capacity(&self) -> Option<usize> {
        self.capacity
    }

    /// Whether the channel takes one more entry: it is open and not full.
    pub open spec fn accepts(&self) -> bool {
        &&& !self.spec_is_closed()
        &&& match self.spec_capacity() {
            Some(bound) => self@.len() < bound,
            None => true,
        }
    }

    /// An empty, open channel, bounded by `capacity` where one is given.
    pub fn new(capacity: Option<usize>) -> (channel: DispatchChannel)
        ensures
            channel@ == Seq::<QueueEntryView>::empty(),
            channel.spec_capacity() == capacity,
            !channel.spec_is_closed(),
    {
        let entries: VecDeque<QueueEntry> = VecDeque::new();
        assert(entries@.map_values(|e: QueueEntry| e@) == Seq::<QueueEntryView>::empty());
        DispatchChannel { entries, capacity, closed: false }
    }

    #[verifier::when_used_as_spec(spec_is_closed)]
    pub fn is_closed(&self) -> (closed: bool)
        ensures
            closed == self.spec_is_closed(),
    {
        self.closed
    }

    #[verifier::when_used_as_spec(spec_capacity)]
    pub fn capacity(&self) -> (capacity: Option<usize>)
        ensures
            capacity == self.spec_capacity(),
    {
        self.capacity
    }

    /// Number of queued entries.
    pub fn len(&self) -> (n: usize)
        ensures
            n == self@.len(),
    {
        self.entries.len()
    }

    pub fn is_empty(&self) -> (empty: bool)
        ensures
            empty == (self@.len() == 0),
    {
        self.entries.len() == 0
    }

    /// Whether the channel takes one more entry.
    #[verifier::when_used_as_spec(accepts)]
    pub fn has_room(&self) -> (room: bool)
        ensures
            room == self.accepts(),
    {
        if self.closed {
            return false;
        }
        match self.capacity {
            Some(bound) => self.entries.len() < bound,
            None => true,
        }
    }

    /// Puts `entry` at the back of the queue if the channel accepts it, and
    /// drops it otherwise.
    pub fn enqueue(&mut self, entry: QueueEntry) -> (accepted: bool)
        ensures
            accepted == old(self).accepts(),
            final(self)@ == if accepted {
                old(self)@.push(entry@)
            } else {
                old(self)@
            },
            final(self).spec_is_closed() == old(self).spec_is_closed(),
            final(self).spec_capacity() == old(self).spec_capacity(),
    {
        if !self.has_room() {
            return false;
        }
        let ghost before = self.entries@;
        self.entries.push_back(entry);
        assert(self.entries@.map_values(|e: QueueEntry| e@) == before.map_values(
            |e: QueueEntry| e@,
        ).push(entry@));
        true
    }

    /// Takes the entry at the front of the queue, if there is one.
    pub fn dequeue(&mut self) -> (entry: Option<QueueEntry>)
        ensures
            match entry {
                Some(e) => old(self)@.len() > 0 && e@ == old(self)@.first() && final(self)@ == old(
                    self,
                )@.drop_first(),
                None => old(self)@.len() == 0 && final(self)@ == old(self)@,
            },
            final(self).spec_is_closed() == old(self).spec_is_closed(),
            final(self).spec_capacity() == old(self).spec_capacity(),
    {
        let ghost before = self.entries@;
        let entry = self.entries.pop_front();
        proof {
            if entry is Some {
                assert(self.entries@.map_values(|e: QueueEntry| e@) == before.map_values(
                    |e: QueueEntry| e@,
                ).drop_first());
            }
        }
        entry
    }

    /// Closes the channel: it accepts nothing more, and what is queued stays.
    pub fn close(&mut self)
        ensures
            final(self).spec_is_closed(),
            final(self)@ == old(self)@,
            final(self).spec_capacity() == old(self).spec_capacity(),
    {
        self.closed = true;
    }
}

/// What goes in first comes out first: after two accepted enqueues, and
/// once everything that was queued before them has been taken, the queue
/// holds the first entry and behind it the second. What was queued before
/// keeps its place.
pub proof fn lemma_fifo(queue: Seq<QueueEntryView>, first: QueueEntryView, second: QueueEntryView)
    ensures
        queue.push(first).push(second).skip(queue.len() as int) == seq![first, second],
        queue.push(first).push(second).take(queue.len() as int) == queue,
{
}

} // verus!
