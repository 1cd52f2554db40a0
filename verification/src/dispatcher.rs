//! The dispatcher: it takes entries from the channel in order and decides,
//! one delivery attempt at a time, what is sent to whom. The host performs
//! each send and reports how it went.

use crate::channel::{DispatchChannel, QueueEntry, QueueEntryView};
use crate::event::{wire_of, WireMessage, WireMessageView};
use crate::registry::{pruned, RecipientId, Registry};
use vstd::prelude::*;

verus! {

/// One delivery attempt: a message for one recipient.
pub ghost struct Attempt {
    pub target: RecipientId,
    pub message: WireMessageView,
}

/// The attempts that an entry asks for: its message to each of its
/// recipients, in their order.
pub open spec fn attempts_of(entry: QueueEntryView) -> Seq<Attempt> {
    Seq::new(
        entry.targets.len(),
        |k: int| Attempt { target: entry.targets[k], message: wire_of(entry.event) },
    )
}

/// The attempts that a queue asks for: those of its first entry, then those
/// of the second, and so on.
pub open spec fn attempts_of_all(entries: Seq<QueueEntryView>) -> Seq<Attempt>
    decreases entries.len(),
{
    if entries.len() == 0 {
        Seq::empty()
    } else {
        attempts_of(entries.first()) + attempts_of_all(entries.drop_first())
    }
}

/// The queue from its first entry that has a recipient.
pub open spec fn from_first_addressed(entries: Seq<QueueEntryView>) -> Seq<QueueEntryView>
    decreases entries.len(),
{
    if entries.len() == 0 || entries.first().targets.len() > 0 {
        entries
    } else {
        from_first_addressed(entries.drop_first())
    }
}

/// A sequence without its first element; an empty one stays empty.
pub open spec fn after_first<A>(items: Seq<A>) -> Seq<A> {
    if items.len() > 0 {
        items.drop_first()
    } else {
        items
    }
}

/// What the dispatcher asks its host to do next.
pub enum DispatchAction {
    /// Nothing is pending: wait until an entry is enqueued.
    Wait,
    /// Send `message` to `target` and report the outcome.
    Send { target: RecipientId, message: WireMessage },
    /// The channel is closed and drained: stop.
    Halt,
}

/// What an action holds.
pub ghost enum ActionView {
    Wait,
    Send(Attempt),
    Halt,
}

impl View for DispatchAction {
    type V = ActionView;

    open spec fn view(&self) -> ActionView {
        match self {
            DispatchAction::Wait => ActionView::Wait,
            DispatchAction::Send { target, message } => ActionView::Send(
                Attempt { target: *target, message: message@ },
            ),
            DispatchAction::Halt => ActionView::Halt,
        }
    }
}

/// The action that is due: the first pending attempt; where nothing is
/// pending, to halt on a closed channel and to wait on an open one.
pub open spec fn next_action(pending: Seq<Attempt>, closed: bool) -> ActionView {
    if pending.len() > 0 {
        ActionView::Send(pending.first())
    } else if closed {
        ActionView::Halt
    } else {
        ActionView::Wait
    }
}

/// How a send went.
#[derive(Clone, Copy, Debug, PartialEq, Eq, Structural)]
pub enum SendOutcome {
    /// The message reached the recipient's mailbox.
    Delivered,
    /// The recipient no longer exists.
    Failed,
}

/// The two states of the dispatcher.
#[derive(Clone, Copy, Debug, PartialEq, Eq, Structural)]
pub enum DispatcherState {
    /// Waiting on the channel.
    Idle,
    /// Going through the recipients of an entry.
    Delivering,
}

/// The dispatcher: the entry that is being delivered, if any, and how far
/// its recipients have been gone through.
pub struct Dispatcher {
    current: Option<QueueEntry>,
    cursor: usize,
}

impl Dispatcher {
    #[verifier::type_invariant]
    spec fn cursor_in_entry(self) -> bool {
        match self.current {
            Some(entry) => self.cursor < entry.targets@.len(),
            None => true,
        }
    }

    /// The attempts of the entry in hand that are still to be made, the next
    /// one first.
    pub closed spec fn in_flight(&self) -> Seq<Attempt> {
        match self.current {
            Some(entry) => attempts_of(entry@).skip(self.cursor as int),
            None => Seq::empty(),
        }
    }

    /// The state: `Delivering` while an entry is in hand.
    pub open spec fn spec_state(&self) -> DispatcherState {
        if self.in_flight().len() > 0 {
            DispatcherState::Delivering
        } else {
            DispatcherState::Idle
        }
    }

    /// All attempts that are still to be made, in the order in which they
    /// will be made: those of the entry in hand, then those of the queue.
    pub open spec fn pending(&self, queue: Seq<QueueEntryView>) -> Seq<Attempt> {
        self.in_flight() + attempts_of_all(queue)
    }

    /// An idle dispatcher.
    pub fn new() -> (dispatcher: Dispatcher)
        ensures
            dispatcher.in_flight() == Seq::<Attempt>::empty(),
    {
        Dispatcher { current: None, cursor: 0 }
    }

    #[verifier::when_used_as_spec(spec_state)]
    pub fn state(&self) -> (state: DispatcherState)
        ensures
            state == self.spec_state(),
    {
        proof {
            use_type_invariant(self);
        }
        match &self.current {
            Some(_) => DispatcherState::Delivering,
            None => DispatcherState::Idle,
        }
    }

    /// Decides the next action.
    ///
    /// With an entry in hand, the action is its next send, again and again
    /// until the outcome is reported. An idle dispatcher takes entries from
    /// the channel up to the first one that has a recipient, and sends that
    /// one's message to its first recipient; where the channel has none, it
    /// halts if the channel is closed and waits otherwise.
    pub fn poll(&mut self, channel: &mut DispatchChannel) -> (action: DispatchAction)
        ensures
            final(self).pending(final(channel)@) == old(self).pending(old(channel)@),
            final(channel).spec_is_closed() == old(channel).spec_is_closed(),
            final(channel).spec_capacity() == old(channel).spec_capacity(),
            old(self).in_flight().len() > 0 ==> final(self).in_flight() == old(self).in_flight()
                && final(channel)@ == old(channel)@,
            old(self).in_flight().len() == 0 ==> final(channel)@ == after_first(
                from_first_addressed(old(channel)@),
            ) && final(self).in_flight() == if from_first_addressed(old(channel)@).len() > 0 {
                attempts_of(from_first_addressed(old(channel)@).first())
            } else {
                Seq::empty()
            },
            action@ == next_action(
                old(self).pending(old(channel)@),
                old(channel).spec_is_closed(),
            ),
            action is Send <==> final(self).spec_state() == DispatcherState::Delivering,
    {
        proof {
            use_type_invariant(&*self);
        }
        if self.current.is_none() {
            self.cursor = 0;
            loop
                invariant_except_break
                    self.current is None,
                    from_first_addressed(channel@) == from_first_addressed(old(channel)@),
                invariant
                    self.cursor == 0,
                    channel.spec_is_closed() == old(channel).spec_is_closed(),
                    channel.spec_capacity() == old(channel).spec_capacity(),
                ensures
                    channel@ == after_first(from_first_addressed(old(channel)@)),
                    match self.current {
                        Some(entry) => from_first_addressed(old(channel)@).len() > 0 && entry@
                            == from_first_addressed(old(channel)@).first()
                            && entry.targets@.len() > 0,
                        None => from_first_addressed(old(channel)@).len() == 0,
                    },
                decreases channel@.len(),
            {
                match channel.dequeue() {
                    Some(entry) => {
                        if entry.targets.len() > 0 {
                            self.current = Some(entry);
                            break;
                        }
                    },
                    None => {
                        break;
                    },
                }
            }
            proof {
                lemma_attempts_from_first_addressed(old(channel)@);
                let rest = from_first_addressed(old(channel)@);
                if rest.len() > 0 {
                    assert(attempts_of(rest.first()).skip(0) == attempts_of(rest.first()));
                }
            }
        }
        match &self.current {
            Some(entry) => {
                let target = entry.targets[self.cursor];
                let message = entry.event.to_wire();
                DispatchAction::Send { target, message }
            },
            None => {
                if channel.is_closed() {
                    DispatchAction::Halt
                } else {
                    DispatchAction::Wait
                }
            },
        }
    }

    /// Takes in the outcome of the send that `poll` asked for.
    ///
    /// The attempt is done, whatever the outcome: nothing is sent twice. A
    /// recipient whose send failed is pruned from the registry. An idle
    /// dispatcher ignores the report.
    pub fn report(&mut self, outcome: SendOutcome, registry: &mut Registry)
        ensures
            final(self).in_flight() == after_first(old(self).in_flight()),
            final(registry).spec_mode() == old(registry).spec_mode(),
            final(registry)@ == if old(self).in_flight().len() > 0 && outcome
                == SendOutcome::Failed {
                pruned(old(registry)@, old(self).in_flight().first().target)
            } else {
                old(registry)@
            },
    {
        proof {
            use_type_invariant(&*self);
        }
        let mut done = false;
        match &self.current {
            Some(entry) => {
                let target = entry.targets[self.cursor];
                match outcome {
                    SendOutcome::Failed => {
                        registry.prune(target);
                    },
                    SendOutcome::Delivered => {},
                }
                let count = entry.targets.len();
                assert(attempts_of(entry@).skip(self.cursor as int).drop_first() == attempts_of(
                    entry@,
                ).skip(self.cursor + 1));
                if self.cursor + 1 < count {
                    self.cursor = self.cursor + 1;
                } else {
                    done = true;
                }
            },
            None => {},
        }
        if done {
            self.current = None;
        }
    }
}

/// Entries without a recipient ask for no attempt: leaving them out of the
/// front of a queue changes nothing of what is to be sent.
pub proof fn lemma_attempts_from_first_addressed(entries: Seq<QueueEntryView>)
    ensures
        attempts_of_all(from_first_addressed(entries)) == attempts_of_all(entries),
        from_first_addressed(entries).len() > 0 ==> from_first_addressed(
            entries,
        ).first().targets.len() > 0,
    decreases entries.len(),
{
    if entries.len() > 0 && entries.first().targets.len() == 0 {
        lemma_attempts_from_first_addressed(entries.drop_first());
        assert(attempts_of(entries.first()) == Seq::<Attempt>::empty());
        assert(attempts_of_all(entries) == attempts_of_all(entries.drop_first()));
    }
}

} // verus!
