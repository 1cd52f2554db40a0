//! The recipient registry: who is registered, and who an event is resolved to
//! under each delivery mode.

use vstd::prelude::*;

verus! {

/// Opaque handle that names a destination process of the host runtime.
///
/// A handle does not own the process: the process may be gone while the
/// handle is still registered.
#[derive(Clone, Copy, Debug, PartialEq, Eq, Structural)]
pub struct RecipientId {
    handle: u64,
}

impl RecipientId {
    /// The number under which the host keeps the destination.
    pub closed spec fn spec_handle(self) -> u64 {
        self.handle
    }

    pub fn new(handle: u64) -> (id: RecipientId)
        ensures
            id.spec_handle() == handle,
    {
        RecipientId { handle }
    }

    #[verifier::when_used_as_spec(spec_handle)]
    pub fn handle(self) -> (handle: u64)
        ensures
            handle == self.spec_handle(),
    {
        self.handle
    }

    /// Two handles with the same number are the same handle.
    pub proof fn lemma_handle_injective(a: RecipientId, b: RecipientId)
        ensures
            a.spec_handle() == b.spec_handle() <==> a == b,
    {
    }
}

/// How events are addressed to recipients.
#[derive(Clone, Copy, Debug, PartialEq, Eq, Structural)]
pub enum DeliveryMode {
    /// Every registered recipient receives every event.
    Broadcast,
    /// Only the earliest surviving registrant receives events.
    SingletonFirst,
    /// The call site names the recipient; the registry is not consulted.
    ContextAddressed,
}

/// Acknowledgement of a registration.
#[derive(Clone, Copy, Debug, PartialEq, Eq, Structural)]
pub enum Ack {
    Accepted,
}

/// The members after one more registration: an id that is already a member
/// changes nothing, a new one goes last.
pub open spec fn registered(members: Seq<RecipientId>, id: RecipientId) -> Seq<RecipientId> {
    if members.contains(id) {
        members
    } else {
        members.push(id)
    }
}

/// The members after a run of registrations, made in order.
pub open spec fn registered_all(members: Seq<RecipientId>, ids: Seq<RecipientId>) -> Seq<
    RecipientId,
>
    decreases ids.len(),
{
    if ids.len() == 0 {
        members
    } else {
        registered(registered_all(members, ids.drop_last()), ids.last())
    }
}

/// The members after `id` was pruned: every occurrence is gone, the others
/// keep their order.
pub open spec fn pruned(members: Seq<RecipientId>, id: RecipientId) -> Seq<RecipientId> {
    members.filter(other_than(id))
}

/// The test that every recipient but `id` passes.
pub open spec fn other_than(id: RecipientId) -> spec_fn(RecipientId) -> bool {
    |m: RecipientId| m != id
}

/// The recipients that the registry resolves to under a mode.
pub open spec fn resolved(mode: DeliveryMode, members: Seq<RecipientId>) -> Seq<RecipientId> {
    match mode {
        DeliveryMode::Broadcast => members,
        DeliveryMode::SingletonFirst => if members.len() > 0 {
            seq![members[0]]
        } else {
            Seq::empty()
        },
        DeliveryMode::ContextAddressed => Seq::empty(),
    }
}

/// The recipients of one log call: those that the registry resolves to, or,
/// under `ContextAddressed`, the one that the call site carries.
pub open spec fn targets_of(
    mode: DeliveryMode,
    members: Seq<RecipientId>,
    context: Option<RecipientId>,
) -> Seq<RecipientId> {
    match mode {
        DeliveryMode::ContextAddressed => match context {
            Some(id) => seq![id],
            None => Seq::empty(),
        },
        _ => resolved(mode, members),
    }
}

/// Registered recipients in the order of their registration, none of them twice.
pub struct Registry {
    mode: DeliveryMode,
    members: Vec<RecipientId>,
}

impl View for Registry {
    type V = Seq<RecipientId>;

    closed spec fn view(&self) -> Seq<RecipientId> {
        self.members@
    }
}

impl Registry {
    #[verifier::type_invariant]
    spec fn distinct(self) -> bool {
        self.members@.no_duplicates()
    }

    pub closed spec fn spec_mode(&self) -> DeliveryMode {
        self.mode
    }

    /// An empty registry for the given mode.
    pub fn new(mode: DeliveryMode) -> (registry: Registry)
        ensures
            registry@ == Seq::<RecipientId>::empty(),
            registry.spec_mode() == mode,
    {
        Registry { mode, members: Vec::new() }
    }

    #[verifier::when_used_as_spec(spec_mode)]
    pub fn mode(&self) -> (mode: DeliveryMode)
        ensures
            mode == self.spec_mode(),
    {
        self.mode
    }

    /// Number of registered recipients.
    pub fn len(&self) -> (n: usize)
        ensures
            n == self@.len(),
            self@.no_duplicates(),
    {
        proof {
            use_type_invariant(self);
        }
        self.members.len()
    }

    /// Whether `id` is registered.
    pub fn contains(&self, id: RecipientId) -> (found: bool)
        ensures
            found == self@.contains(id),
    {
        let mut i: usize = 0;
        while i < self.members.len()
            invariant
                i <= self.members@.len(),
                forall|k: int| 0 <= k < i ==> self.members@[k] != id,
            decreases self.members@.len() - i,
        {
            if self.members[i] == id {
                return true;
            }
            i += 1;
        }
        false
    }

    /// Registers `id`. Never fails; registering a member again changes nothing.
    pub fn register(&mut self, id: RecipientId) -> (ack: Ack)
        ensures
            final(self)@ == registered(old(self)@, id),
            final(self).spec_mode() == old(self).spec_mode(),
            final(self)@.no_duplicates(),
            ack == Ack::Accepted,
    {
        proof {
            use_type_invariant(&*self);
        }
        if !self.contains(id) {
            let mut members: Vec<RecipientId> = Vec::new();
            core::mem::swap(&mut self.members, &mut members);
            members.push(id);
            self.members = members;
        }
        Ack::Accepted
    }

    /// The recipients that an event is resolved to: all members under
    /// `Broadcast`, the earliest member under `SingletonFirst`, none under
    /// `ContextAddressed`.
    pub fn resolve(&self) -> (targets: Vec<RecipientId>)
        ensures
            targets@ == resolved(self.spec_mode(), self@),
            targets@.no_duplicates(),
    {
        proof {
            use_type_invariant(self);
        }
        let mut targets: Vec<RecipientId> = Vec::new();
        match self.mode {
            DeliveryMode::Broadcast => {
                let mut i: usize = 0;
                while i < self.members.len()
                    invariant
                        i <= self.members@.len(),
                        targets@ == self.members@.take(i as int),
                    decreases self.members@.len() - i,
                {
                    targets.push(self.members[i]);
                    assert(self.members@.take(i + 1) == self.members@.take(i as int).push(
                        self.members@[i as int],
                    ));
                    i += 1;
                }
                assert(self.members@.take(i as int) == self.members@);
            },
            DeliveryMode::SingletonFirst => {
                if self.members.len() > 0 {
                    targets.push(self.members[0]);
                }
            },
            DeliveryMode::ContextAddressed => {},
        }
        targets
    }

    /// Removes every occurrence of `id`; the other members keep their order.
    pub fn prune(&mut self, id: RecipientId)
        ensures
            final(self)@ == pruned(old(self)@, id),
            final(self).spec_mode() == old(self).spec_mode(),
            final(self)@.no_duplicates(),
    {
        proof {
            use_type_invariant(&*self);
        }
        let ghost keep = other_than(id);
        let mut kept: Vec<RecipientId> = Vec::new();
        let mut i: usize = 0;
        while i < self.members.len()
            invariant
                i <= self.members@.len(),
                keep == other_than(id),
                kept@ == self.members@.take(i as int).filter(keep),
            decreases self.members@.len() - i,
        {
            let member = self.members[i];
            proof {
                assert(self.members@.take(i + 1) == self.members@.take(i as int).push(member));
                self.members@.take(i as int).lemma_filter_push(member, keep);
            }
            if member != id {
                kept.push(member);
            }
            i += 1;
        }
        proof {
            assert(self.members@.take(i as int) == self.members@);
            lemma_pruned_members(self.members@, id);
        }
        self.members = kept;
    }
}

/// Pruning keeps the members distinct and removes `id` and nothing else.
pub proof fn lemma_pruned_members(members: Seq<RecipientId>, id: RecipientId)
    requires
        members.no_duplicates(),
    ensures
        pruned(members, id).no_duplicates(),
        forall|m: RecipientId|
            #[trigger] pruned(members, id).contains(m) <==> members.contains(m) && m != id,
    decreases members.len(),
{
    broadcast use vstd::seq_lib::lemma_seq_contains_after_push;

    reveal(Seq::filter);
    if members.len() > 0 {
        let front = members.drop_last();
        let last = members.last();
        lemma_pruned_members(front, id);
        assert(front.push(last) == members);
        front.lemma_filter_push(last, other_than(id));
        assert(!front.contains(last)) by {
            if front.contains(last) {
                let k = choose|k: int| 0 <= k < front.len() && front[k] == last;
                assert(members[k] == members[members.len() - 1]);
            }
        }
        assert forall|m: RecipientId| #[trigger]
            pruned(members, id).contains(m) <==> members.contains(m) && m != id by {
            assert(members.contains(m) <==> front.contains(m) || m == last);
            assert(pruned(front, id).contains(m) <==> front.contains(m) && m != id);
        }
        if last != id {
            let kept = pruned(front, id);
            assert(!kept.contains(last));
            assert forall|a: int, b: int|
                0 <= a < kept.len() + 1 && 0 <= b < kept.len() + 1 && a != b implies kept.push(
                last,
            )[a] != kept.push(last)[b] by {
                if a < kept.len() {
                    assert(kept.contains(kept[a]));
                }
                if b < kept.len() {
                    assert(kept.contains(kept[b]));
                }
            }
        }
    }
}

/// Registrations keep the members distinct, and the members afterwards are
/// the earlier members and the registered ids, no others.
pub proof fn lemma_registered_all_members(members: Seq<RecipientId>, ids: Seq<RecipientId>)
    requires
        members.no_duplicates(),
    ensures
        registered_all(members, ids).no_duplicates(),
        forall|m: RecipientId|
            #[trigger] registered_all(members, ids).contains(m) <==> members.contains(m)
                || ids.contains(m),
    decreases ids.len(),
{
    broadcast use vstd::seq_lib::lemma_seq_contains_after_push;

    if ids.len() > 0 {
        let front = ids.drop_last();
        let last = ids.last();
        let before = registered_all(members, front);
        lemma_registered_all_members(members, front);
        assert(front.push(last) == ids);
        assert forall|m: RecipientId| #[trigger]
            registered_all(members, ids).contains(m) <==> members.contains(m) || ids.contains(
                m,
            ) by {
            assert(ids.contains(m) <==> front.contains(m) || m == last);
            assert(before.contains(m) <==> members.contains(m) || front.contains(m));
        }
        if !before.contains(last) {
            assert forall|a: int, b: int|
                0 <= a < before.len() + 1 && 0 <= b < before.len() + 1 && a != b implies before.push(
                last,
            )[a] != before.push(last)[b] by {
                if a < before.len() {
                    assert(before.contains(before[a]));
                }
                if b < before.len() {
                    assert(before.contains(before[b]));
                }
            }
        }
    }
}

/// Under `Broadcast`, once ids that differ from one another were registered
/// with an empty registry, resolution yields all of them, each exactly once:
/// they come out in the order of their registration.
pub proof fn lemma_broadcast_resolves_all(ids: Seq<RecipientId>)
    requires
        ids.no_duplicates(),
    ensures
        resolved(DeliveryMode::Broadcast, registered_all(Seq::empty(), ids)) == ids,
        resolved(DeliveryMode::Broadcast, registered_all(Seq::empty(), ids)).len() == ids.len(),
        resolved(DeliveryMode::Broadcast, registered_all(Seq::empty(), ids)).no_duplicates(),
    decreases ids.len(),
{
    if ids.len() > 0 {
        let front = ids.drop_last();
        let last = ids.last();
        lemma_broadcast_resolves_all(front);
        assert(front.push(last) == ids);
        assert(!front.contains(last)) by {
            if front.contains(last) {
                let k = choose|k: int| 0 <= k < front.len() && front[k] == last;
                assert(ids[k] == ids[ids.len() - 1]);
            }
        }
    } else {
        assert(ids == Seq::<RecipientId>::empty());
    }
}

/// Under `Broadcast`, whatever was registered, resolution yields every
/// registered id exactly once.
pub proof fn lemma_broadcast_resolves_each_once(ids: Seq<RecipientId>)
    ensures
        resolved(DeliveryMode::Broadcast, registered_all(Seq::empty(), ids)).no_duplicates(),
        forall|m: RecipientId|
            #[trigger] resolved(
                DeliveryMode::Broadcast,
                registered_all(Seq::empty(), ids),
            ).contains(m) <==> ids.contains(m),
{
    lemma_registered_all_members(Seq::empty(), ids);
}

/// Under `SingletonFirst`, of two different recipients registered with an
/// empty registry the first alone is resolved, and once it was pruned the
/// second alone.
pub proof fn lemma_singleton_first_promotion(first: RecipientId, second: RecipientId)
    requires
        first != second,
    ensures
        resolved(DeliveryMode::SingletonFirst, registered(Seq::empty(), first)) == seq![first],
        resolved(
            DeliveryMode::SingletonFirst,
            registered(registered(Seq::empty(), first), second),
        ) == seq![first],
        resolved(
            DeliveryMode::SingletonFirst,
            pruned(registered(registered(Seq::empty(), first), second), first),
        ) == seq![second],
{
    let none = Seq::<RecipientId>::empty();
    let one = registered(none, first);
    assert(one == seq![first]);
    let both = registered(one, second);
    assert(!one.contains(second));
    assert(both == seq![first, second]);
    reveal_with_fuel(Seq::filter, 3);
    assert(both.drop_last() == one);
    assert(one.drop_last() == none);
    assert(pruned(both, first) == seq![second]);
}

/// Under `SingletonFirst`, while the earliest registrant stays, neither a
/// registration nor the pruning of another recipient changes who is resolved.
pub proof fn lemma_singleton_first_stable(members: Seq<RecipientId>, id: RecipientId)
    requires
        members.len() > 0,
    ensures
        resolved(DeliveryMode::SingletonFirst, registered(members, id)) == resolved(
            DeliveryMode::SingletonFirst,
            members,
        ),
        id != members[0] ==> resolved(DeliveryMode::SingletonFirst, pruned(members, id))
            == resolved(DeliveryMode::SingletonFirst, members),
{
    if id != members[0] {
        lemma_pruned_keeps_front(members, id);
    }
}

/// Pruning another recipient leaves the earliest registrant in front.
pub proof fn lemma_pruned_keeps_front(members: Seq<RecipientId>, id: RecipientId)
    requires
        members.len() > 0,
        id != members[0],
    ensures
        pruned(members, id).len() > 0,
        pruned(members, id)[0] == members[0],
    decreases members.len(),
{
    reveal(Seq::filter);
    let front = members.drop_last();
    assert(front.push(members.last()) == members);
    front.lemma_filter_push(members.last(), other_than(id));
    if front.len() > 0 {
        lemma_pruned_keeps_front(front, id);
    } else {
        assert(pruned(front, id) == Seq::<RecipientId>::empty());
    }
}

} // verus!
