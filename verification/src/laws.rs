//! What holds of the bridge across several calls: bootstrap happens once,
//! and attempts are made in the order in which their events were logged,
//! each exactly once.

use crate::bridge::{BootOutcome, BridgeView, LogOutcome};
use crate::channel::QueueEntryView;
use crate::dispatcher::{
    after_first, attempts_of, attempts_of_all, from_first_addressed,
    lemma_attempts_from_first_addressed, next_action, ActionView, Attempt, SendOutcome,
};
use crate::event::RawRecord;
use crate::registry::RecipientId;
use vstd::prelude::*;

verus! {

/// The outcomes of a run of bootstrap calls.
pub open spec fn boot_outcomes(state: BridgeView, calls: nat) -> Seq<BootOutcome>
    decreases calls,
{
    if calls == 0 {
        Seq::empty()
    } else {
        seq![state.boot_outcome()] + boot_outcomes(state.after_bootstrap(), (calls - 1) as nat)
    }
}

/// Bootstrap is idempotent: a second call leaves the state as the first
/// left it, and in a run of calls none but the first can start anything.
pub proof fn lemma_bootstrap_once(state: BridgeView, calls: nat)
    ensures
        state.after_bootstrap().after_bootstrap() == state.after_bootstrap(),
        state.after_bootstrap().boot_outcome() == BootOutcome::AlreadyRunning,
        state.started ==> state.after_bootstrap() == state,
        boot_outcomes(state, calls).len() == calls,
        forall|k: int| 1 <= k < calls ==> boot_outcomes(state, calls)[k] == BootOutcome::AlreadyRunning,
        calls > 0 ==> (boot_outcomes(state, calls)[0] == BootOutcome::Started <==> !state.started),
    decreases calls,
{
    if calls > 0 {
        let next = state.after_bootstrap();
        lemma_bootstrap_once(next, (calls - 1) as nat);
        let rest = boot_outcomes(next, (calls - 1) as nat);
        assert forall|k: int| 1 <= k < calls implies boot_outcomes(state, calls)[k]
            == BootOutcome::AlreadyRunning by {
            assert(boot_outcomes(state, calls)[k] == rest[k - 1]);
            if k == 1 {
                assert(rest[0] == next.boot_outcome());
            }
        }
    }
}

/// An entry at the back of the queue asks for its attempts after all others.
pub proof fn lemma_attempts_push(entries: Seq<QueueEntryView>, entry: QueueEntryView)
    ensures
        attempts_of_all(entries.push(entry)) == attempts_of_all(entries) + attempts_of(entry),
    decreases entries.len(),
{
    if entries.len() == 0 {
        assert(entries.push(entry).drop_first() == entries);
        assert(attempts_of_all(entries.push(entry)) == attempts_of(entry) + Seq::<Attempt>::empty());
    } else {
        lemma_attempts_push(entries.drop_first(), entry);
        assert(entries.push(entry).drop_first() == entries.drop_first().push(entry));
        assert(entries.push(entry).first() == entries.first());
    }
}

/// An entry asks for one attempt per recipient, in the order of its
/// recipients, each with the entry's own message.
pub proof fn lemma_attempts_once_each(entry: QueueEntryView)
    ensures
        attempts_of(entry).len() == entry.targets.len(),
        forall|k: int|
            0 <= k < entry.targets.len() ==> (#[trigger] attempts_of(entry)[k]).target
                == entry.targets[k] && attempts_of(entry)[k].message == attempts_of(
                entry,
            )[0].message,
{
}

/// A log call that is not dropped puts the attempts of its entry behind all
/// pending ones; a dropped one changes nothing.
pub proof fn lemma_log_appends(state: BridgeView, record: RawRecord, context: Option<RecipientId>)
    ensures
        state.after_log(record, context).pending() == if state.log_outcome(context)
            == LogOutcome::Enqueued {
            state.pending() + attempts_of(state.entry_of(record, context))
        } else {
            state.pending()
        },
{
    if state.log_outcome(context) == LogOutcome::Enqueued {
        lemma_attempts_push(state.queued, state.entry_of(record, context));
    }
}

/// A poll changes nothing of what is pending, and with something pending it
/// leaves an entry in the dispatcher's hand.
pub proof fn lemma_poll_keeps_pending(state: BridgeView)
    ensures
        state.after_poll().pending() == state.pending(),
        state.pending().len() > 0 ==> state.after_poll().in_flight.len() > 0
            && state.after_poll().in_flight.first() == state.pending().first(),
        state.pending().len() == 0 ==> state.after_poll().in_flight.len() == 0,
{
    if state.in_flight.len() == 0 {
        lemma_attempts_from_first_addressed(state.queued);
        let rest = from_first_addressed(state.queued);
        assert(state.pending() == attempts_of_all(state.queued));
        if rest.len() > 0 {
            assert(attempts_of_all(rest) == attempts_of(rest.first()) + attempts_of_all(
                rest.drop_first(),
            ));
        } else {
            assert(attempts_of_all(rest) == Seq::<Attempt>::empty());
            assert(state.after_poll().pending() == Seq::<Attempt>::empty());
        }
    }
}

/// A report with an entry in hand takes the first pending attempt off, and
/// no other.
pub proof fn lemma_report_advances(state: BridgeView, outcome: SendOutcome)
    requires
        state.in_flight.len() > 0,
    ensures
        state.after_report(outcome).pending() == state.pending().drop_first(),
{
}

/// The attempts that the dispatcher makes while it is polled and told one
/// outcome after the other, with no other call in between.
pub open spec fn attempts_made(state: BridgeView, outcomes: Seq<SendOutcome>) -> Seq<Attempt>
    decreases outcomes.len(),
{
    if outcomes.len() == 0 {
        Seq::empty()
    } else {
        match next_action(state.pending(), state.closed) {
            ActionView::Send(attempt) => seq![attempt] + attempts_made(
                state.after_poll().after_report(outcomes.first()),
                outcomes.drop_first(),
            ),
            _ => Seq::empty(),
        }
    }
}

/// The dispatcher makes the pending attempts in their order, each once,
/// whatever the outcomes are: a failed send stops nothing and is not retried.
pub proof fn lemma_attempts_in_pending_order(state: BridgeView, outcomes: Seq<SendOutcome>)
    ensures
        attempts_made(state, outcomes) == state.pending().take(
            if outcomes.len() <= state.pending().len() {
                outcomes.len() as int
            } else {
                state.pending().len() as int
            },
        ),
    decreases outcomes.len(),
{
    let pending = state.pending();
    if outcomes.len() == 0 || pending.len() == 0 {
        assert(pending.take(0) == Seq::<Attempt>::empty());
    } else {
        let polled = state.after_poll();
        lemma_poll_keeps_pending(state);
        let next = polled.after_report(outcomes.first());
        lemma_report_advances(polled, outcomes.first());
        lemma_attempts_in_pending_order(next, outcomes.drop_first());
        let count = if outcomes.len() <= pending.len() {
            outcomes.len() as int
        } else {
            pending.len() as int
        };
        assert(next.pending() == pending.drop_first());
        assert(pending.take(count) == seq![pending.first()] + pending.drop_first().take(count - 1));
    }
}

/// Of two events logged one after the other, every attempt for the first is
/// pending before every attempt for the second: the dispatcher tries to
/// deliver the first to a recipient before it tries the second.
pub proof fn lemma_logged_in_order(
    state: BridgeView,
    first: RawRecord,
    first_context: Option<RecipientId>,
    second: RawRecord,
    second_context: Option<RecipientId>,
)
    requires
        state.log_outcome(first_context) == LogOutcome::Enqueued,
        state.after_log(first, first_context).log_outcome(second_context) == LogOutcome::Enqueued,
    ensures
        ({
            let between = state.after_log(first, first_context);
            let after = between.after_log(second, second_context);
            let earlier = attempts_of(state.entry_of(first, first_context));
            let later = attempts_of(between.entry_of(second, second_context));
            let base = state.pending().len();
            &&& after.pending() == state.pending() + earlier + later
            &&& forall|i: int, j: int|
                0 <= i < earlier.len() && 0 <= j < later.len() ==> base + i < base + earlier.len()
                    + j && after.pending()[base + i] == #[trigger] earlier[i]
                    && after.pending()[base + earlier.len() + j] == #[trigger] later[j]
        }),
{
    lemma_log_appends(state, first, first_context);
    lemma_log_appends(state.after_log(first, first_context), second, second_context);
}

} // verus!
