//! The bridge as a whole: bootstrap, the sink that log calls reach, the
//! registration of recipients, and the dispatcher's steps, over one state.

use crate::channel::{DispatchChannel, QueueEntry, QueueEntryView};
use crate::dispatcher::{
    after_first, attempts_of, attempts_of_all, from_first_addressed, next_action, Attempt,
    DispatchAction, Dispatcher, DispatcherState, SendOutcome,
};
use crate::event::{extracted, LogEvent, RawRecord};
use crate::registry::{
    pruned, registered, resolved, targets_of, Ack, DeliveryMode, RecipientId, Registry,
};
use vstd::prelude::*;

verus! {

/// What became of a bootstrap call.
#[derive(Clone, Copy, Debug, PartialEq, Eq, Structural)]
pub enum BootOutcome {
    /// The bridge was started by this call: the host starts the dispatcher
    /// worker and installs the sink.
    Started,
    /// The bridge was running already: the call changed nothing, and the
    /// host starts nothing.
    AlreadyRunning,
}

/// What became of a log call.
#[derive(Clone, Copy, Debug, PartialEq, Eq, Structural)]
pub enum LogOutcome {
    /// The event is queued for its recipients.
    Enqueued,
    /// Dropped: the bridge has not been started.
    NotStarted,
    /// Dropped: no recipient was resolved.
    NoRecipient,
    /// Dropped: the channel is full or closed.
    ChannelRefused,
}

/// The state of a bridge.
pub ghost struct BridgeView {
    pub started: bool,
    pub mode: DeliveryMode,
    /// The registered recipients, in the order of their registration.
    pub members: Seq<RecipientId>,
    /// The queued entries, the oldest first.
    pub queued: Seq<QueueEntryView>,
    /// The attempts of the entry in the dispatcher's hand that are still to
    /// be made.
    pub in_flight: Seq<Attempt>,
    pub closed: bool,
    pub capacity: Option<usize>,
}

impl BridgeView {
    /// All attempts that are still to be made, in the order in which the
    /// dispatcher will make them.
    pub open spec fn pending(self) -> Seq<Attempt> {
        self.in_flight + attempts_of_all(self.queued)
    }

    /// Whether the channel takes one more entry.
    pub open spec fn accepts(self) -> bool {
        &&& !self.closed
        &&& match self.capacity {
            Some(bound) => self.queued.len() < bound,
            None => true,
        }
    }

    /// The state of a new bridge.
    pub open spec fn fresh(mode: DeliveryMode, capacity: Option<usize>) -> BridgeView {
        BridgeView {
            started: false,
            mode,
            members: Seq::empty(),
            queued: Seq::empty(),
            in_flight: Seq::empty(),
            closed: false,
            capacity,
        }
    }

    /// The outcome of a bootstrap call in this state.
    pub open spec fn boot_outcome(self) -> BootOutcome {
        if self.started {
            BootOutcome::AlreadyRunning
        } else {
            BootOutcome::Started
        }
    }

    /// The state after a bootstrap call.
    pub open spec fn after_bootstrap(self) -> BridgeView {
        BridgeView { started: true, ..self }
    }

    /// The state after `id` was registered.
    pub open spec fn after_register(self, id: RecipientId) -> BridgeView {
        BridgeView { members: registered(self.members, id), ..self }
    }

    /// The entry that a log call makes of a record.
    pub open spec fn entry_of(self, record: RawRecord, context: Option<RecipientId>) -> QueueEntryView {
        QueueEntryView {
            event: extracted(record),
            targets: targets_of(self.mode, self.members, context),
        }
    }

    /// The outcome of a log call in this state.
    pub open spec fn log_outcome(self, context: Option<RecipientId>) -> LogOutcome {
        if !self.started {
            LogOutcome::NotStarted
        } else if targets_of(self.mode, self.members, context).len() == 0 {
            LogOutcome::NoRecipient
        } else if !self.accepts() {
            LogOutcome::ChannelRefused
        } else {
            LogOutcome::Enqueued
        }
    }

    /// The state after a log call: the entry goes to the back of the queue
    /// where the call's outcome is `Enqueued`, and nothing changes otherwise.
    pub open spec fn after_log(self, record: RawRecord, context: Option<RecipientId>) -> BridgeView {
        if self.log_outcome(context) == LogOutcome::Enqueued {
            BridgeView { queued: self.queued.push(self.entry_of(record, context)), ..self }
        } else {
            self
        }
    }

    /// The state after the dispatcher was polled: an idle dispatcher has
    /// taken the first entry that has a recipient in hand.
    pub open spec fn after_poll(self) -> BridgeView {
        if self.in_flight.len() > 0 {
            self
        } else {
            let rest = from_first_addressed(self.queued);
            BridgeView {
                queued: after_first(rest),
                in_flight: if rest.len() > 0 {
                    attempts_of(rest.first())
                } else {
                    Seq::empty()
                },
                ..self
            }
        }
    }

    /// The state after the outcome of a send was reported: the attempt is
    /// done, and a recipient whose send failed is pruned.
    pub open spec fn after_report(self, outcome: SendOutcome) -> BridgeView {
        BridgeView {
            in_flight: after_first(self.in_flight),
            members: if self.in_flight.len() > 0 && outcome == SendOutcome::Failed {
                pruned(self.members, self.in_flight.first().target)
            } else {
                self.members
            },
            ..self
        }
    }

    /// The state after the channel was closed.
    pub open spec fn after_close(self) -> BridgeView {
        BridgeView { closed: true, ..self }
    }
}

/// The bridge between a logging facility and the recipients of its events.
pub struct Bridge {
    started: bool,
    registry: Registry,
    channel: DispatchChannel,
    dispatcher: Dispatcher,
}

impl View for Bridge {
    type V = BridgeView;

    closed spec fn view(&self) -> BridgeView {
        BridgeView {
            started: self.started,
            mode: self.registry.spec_mode(),
            members: self.registry@,
            queued: self.channel@,
            in_flight: self.dispatcher.in_flight(),
            closed: self.channel.spec_is_closed(),
            capacity: self.channel.spec_capacity(),
        }
    }
}

impl Bridge {
    /// A bridge that has not been started: nobody is registered, nothing is
    /// queued, and log calls are dropped until `bootstrap`. The delivery mode
    /// and the bound of the channel, if any, are chosen here for good.
    pub fn new(mode: DeliveryMode, capacity: Option<usize>) -> (bridge: Bridge)
        ensures
            bridge@ == BridgeView::fresh(mode, capacity),
    {
        Bridge {
            started: false,
            registry: Registry::new(mode),
            channel: DispatchChannel::new(capacity),
            dispatcher: Dispatcher::new(),
        }
    }

    /// Starts the bridge. Only the first call starts anything: a later call
    /// changes nothing and says so.
    pub fn bootstrap(&mut self) -> (outcome: BootOutcome)
        ensures
            outcome == old(self)@.boot_outcome(),
            final(self)@ == old(self)@.after_bootstrap(),
    {
        if self.started {
            BootOutcome::AlreadyRunning
        } else {
            self.started = true;
            BootOutcome::Started
        }
    }

    /// Whether the sink takes records: it does once the bridge was started,
    /// at every level.
    pub fn enabled(&self) -> (enabled: bool)
        ensures
            enabled == self@.started,
    {
        self.started
    }

    pub fn mode(&self) -> (mode: DeliveryMode)
        ensures
            mode == self@.mode,
    {
        self.registry.mode()
    }

    /// Registers a recipient. Never fails, whether or not the recipient is
    /// alive; registering a member again changes nothing.
    pub fn register(&mut self, id: RecipientId) -> (ack: Ack)
        ensures
            ack == Ack::Accepted,
            final(self)@ == old(self)@.after_register(id),
    {
        self.registry.register(id)
    }

    /// Whether `id` is registered.
    pub fn is_registered(&self, id: RecipientId) -> (found: bool)
        ensures
            found == self@.members.contains(id),
    {
        self.registry.contains(id)
    }

    /// The recipients that the registry resolves to.
    pub fn resolve(&self) -> (targets: Vec<RecipientId>)
        ensures
            targets@ == resolved(self@.mode, self@.members),
    {
        self.registry.resolve()
    }

    /// The recipients of a log call with the given context.
    pub fn targets(&self, context: Option<RecipientId>) -> (targets: Vec<RecipientId>)
        ensures
            targets@ == targets_of(self@.mode, self@.members, context),
    {
        match self.registry.mode() {
            DeliveryMode::ContextAddressed => {
                let mut targets: Vec<RecipientId> = Vec::new();
                match context {
                    Some(id) => {
                        targets.push(id);
                    },
                    None => {},
                }
                targets
            },
            _ => self.registry.resolve(),
        }
    }

    /// Takes a record from the logging facility.
    ///
    /// The record is dropped where the bridge is not started, where it
    /// resolves to no recipient, or where the channel refuses it. Otherwise
    /// its event is extracted and queued with the recipients resolved now.
    /// The call never waits and never fails; the outcome only tells what
    /// became of the record.
    pub fn log(&mut self, record: &RawRecord, context: Option<RecipientId>) -> (outcome: LogOutcome)
        ensures
            outcome == old(self)@.log_outcome(context),
            final(self)@ == old(self)@.after_log(*record, context),
    {
        if !self.started {
            return LogOutcome::NotStarted;
        }
        let targets = self.targets(context);
        if targets.len() == 0 {
            return LogOutcome::NoRecipient;
        }
        if !self.channel.has_room() {
            return LogOutcome::ChannelRefused;
        }
        let event = LogEvent::extract(record);
        self.channel.enqueue(QueueEntry { event, targets });
        LogOutcome::Enqueued
    }

    /// Does nothing: delivery is eventual, and a flush does not wait for it.
    pub fn flush(&self) {
    }

    /// Number of queued entries.
    pub fn queued(&self) -> (n: usize)
        ensures
            n == self@.queued.len(),
    {
        self.channel.len()
    }

    /// The dispatcher's state: `Delivering` while an entry is in its hand.
    pub fn state(&self) -> (state: DispatcherState)
        ensures
            state == if self@.in_flight.len() > 0 {
                DispatcherState::Delivering
            } else {
                DispatcherState::Idle
            },
    {
        self.dispatcher.state()
    }

    pub fn is_closed(&self) -> (closed: bool)
        ensures
            closed == self@.closed,
    {
        self.channel.is_closed()
    }

    /// The dispatcher's next action: the first pending attempt, if there is
    /// one; otherwise to halt if the channel is closed, and to wait if not.
    pub fn poll(&mut self) -> (action: DispatchAction)
        ensures
            action@ == next_action(old(self)@.pending(), old(self)@.closed),
            final(self)@ == old(self)@.after_poll(),
            final(self)@.pending() == old(self)@.pending(),
    {
        self.dispatcher.poll(&mut self.channel)
    }

    /// Takes in the outcome of the send that `poll` asked for: the attempt
    /// is done, and a recipient whose send failed is pruned.
    pub fn report(&mut self, outcome: SendOutcome)
        ensures
            final(self)@ == old(self)@.after_report(outcome),
    {
        self.dispatcher.report(outcome, &mut self.registry)
    }

    /// Closes the channel: later log calls are dropped, and the dispatcher
    /// halts once it has made the pending attempts.
    pub fn close(&mut self)
        ensures
            final(self)@ == old(self)@.after_close(),
    {
        self.channel.close()
    }
}

} // verus!
