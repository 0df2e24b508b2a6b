//! Bidirectional links between actors and what an exit signal does to the
//! actor that receives it.
use vstd::prelude::*;
use crate::child_handle::ActorId;
use crate::error::ExitReason;
use crate::seqs::{lemma_filter_contains_iff, lemma_take_full, lemma_take_succ_filter};

verus! {

/// Notification delivered to an actor when a linked actor stops, if the
/// receiver traps exits.
#[derive(Debug, Clone, PartialEq)]
pub struct Exit {
    /// The actor that died.
    pub from: ActorId,
    /// Why it stopped.
    pub reason: ExitReason,
}

/// An entry in an actor's link table, representing one linked peer.
/// `peer` carries whatever the runtime needs to reach that peer.
pub struct LinkEntry<S> {
    /// The peer's unique actor ID.
    pub peer_id: ActorId,
    /// How to signal the peer and reach its own link table.
    pub peer: S,
}

/// An actor's link table — a list of linked peers, at most one entry per peer.
pub struct LinkTable<S> {
    entries: Vec<LinkEntry<S>>,
}

/// What an exit signal does to the actor that receives it.
#[derive(Debug, Clone, PartialEq)]
pub enum ExitSignal {
    /// Nothing happens.
    Ignore,
    /// The actor traps exits: deliver this `Exit` message to its mailbox.
    Deliver(Exit),
    /// The actor is cancelled.
    Cancel,
}

/// Keep entries whose peer is not `id`.
pub open spec fn entry_not_for<S>(id: ActorId) -> spec_fn(LinkEntry<S>) -> bool {
    |e: LinkEntry<S>| e.peer_id != id
}

impl<S> LinkTable<S> {
    /// The entries, in the order the links were made.
    pub closed spec fn view(&self) -> Seq<LinkEntry<S>> {
        self.entries@
    }

    /// `id` has an entry in the table.
    pub open spec fn has_peer(&self, id: ActorId) -> bool {
        exists|i: int| 0 <= i < self.view().len() && #[trigger] self.view()[i].peer_id == id
    }

    /// Number of linked peers.
    pub fn len(&self) -> (r: usize)
        ensures
            r == self.view().len(),
    {
        self.entries.len()
    }

    /// Whether no peer is linked.
    pub fn is_empty(&self) -> (r: bool)
        ensures
            r == (self.view().len() == 0),
    {
        self.entries.len() == 0
    }

    /// Whether `id` has an entry in the table.
    pub fn contains_peer(&self, id: ActorId) -> (r: bool)
        ensures
            r == self.has_peer(id),
    {
        let mut i: usize = 0;
        while i < self.entries.len()
            invariant
                i <= self.entries.len(),
                forall|k: int| 0 <= k < i ==> self.entries@[k].peer_id != id,
            decreases self.entries.len() - i,
        {
            if self.entries[i].peer_id == id {
                assert(self.view()[i as int].peer_id == id);
                return true;
            }
            i = i + 1;
        }
        false
    }

    /// The linked peers' ids, in the order the links were made.
    pub fn peer_ids(&self) -> (r: Vec<ActorId>)
        ensures
            r@ == self.view().map_values(|e: LinkEntry<S>| e.peer_id),
    {
        let mut out: Vec<ActorId> = Vec::new();
        let mut i: usize = 0;
        while i < self.entries.len()
            invariant
                i <= self.entries.len(),
                out@ == self.entries@.take(i as int).map_values(|e: LinkEntry<S>| e.peer_id),
            decreases self.entries.len() - i,
        {
            out.push(self.entries[i].peer_id);
            proof {
                assert(self.entries@.take(i + 1).map_values(|e: LinkEntry<S>| e.peer_id) =~= self.entries@.take(
                    i as int,
                ).map_values(|e: LinkEntry<S>| e.peer_id).push(self.entries@[i as int].peer_id));
            }
            i = i + 1;
        }
        proof {
            lemma_take_full(self.entries@);
        }
        out
    }
}

/// Create a new empty link table.
pub fn new_link_table<S>() -> (t: LinkTable<S>)
    ensures
        t.view() == Seq::<LinkEntry<S>>::empty(),
{
    LinkTable { entries: Vec::new() }
}

/// A new trap-exit flag: actors do not trap exits until they ask to.
pub fn new_trap_exit_flag() -> (r: bool)
    ensures
        r == false,
{
    false
}

/// A new, empty linked-exit-reason slot.
pub fn new_linked_exit_reason() -> (r: Option<ExitReason>)
    ensures
        r is None,
{
    None
}

/// What the exit signal of `sender_id` with `reason` does to a linked
/// actor whose trap flag is `trapping` and whose linked-reason slot is
/// `slot`, and what the slot holds afterwards.
pub open spec fn spec_exit_signal(
    trapping: bool,
    slot: Option<ExitReason>,
    sender_id: ActorId,
    reason: ExitReason,
) -> (ExitSignal, Option<ExitReason>) {
    if reason is Kill {
        // Kill is untrappable: always cancel, recording Kill unless a reason is already there.
        (ExitSignal::Cancel, if slot is None { Some(ExitReason::Kill) } else { slot })
    } else if reason is Normal && !trapping {
        // Normal exits are dropped unless the receiver traps them.
        (ExitSignal::Ignore, slot)
    } else if trapping {
        (ExitSignal::Deliver(Exit { from: sender_id, reason }), slot)
    } else {
        (ExitSignal::Cancel, if slot is None { Some(reason) } else { slot })
    }
}

/// Decide what an exit signal from `sender_id` with `reason` does to a
/// linked actor: `Kill` always cancels it; a `Normal` exit is ignored
/// unless it traps exits; a trapping actor gets an `Exit` message; any
/// other actor is cancelled. On cancellation the reason is recorded in
/// `linked_reason` unless one is already there.
pub fn exit_signal(
    trapping: bool,
    linked_reason: &mut Option<ExitReason>,
    sender_id: ActorId,
    reason: ExitReason,
) -> (action: ExitSignal)
    ensures
        (action, *final(linked_reason)) == spec_exit_signal(trapping, *old(linked_reason), sender_id, reason),
{
    match reason {
        ExitReason::Kill => {
            if linked_reason.is_none() {
                *linked_reason = Some(ExitReason::Kill);
            }
            ExitSignal::Cancel
        },
        _ => {
            let is_normal = match &reason {
                ExitReason::Normal => true,
                _ => false,
            };
            if is_normal && !trapping {
                return ExitSignal::Ignore;
            }
            if trapping {
                ExitSignal::Deliver(Exit { from: sender_id, reason })
            } else {
                if linked_reason.is_none() {
                    *linked_reason = Some(reason);
                }
                ExitSignal::Cancel
            }
        },
    }
}

/// The exit reason an actor reports once its loop ended with
/// `run_reason`: when the loop ended normally but a link signal cancelled
/// the actor, the linked reason is taken from the slot and reported
/// instead, so the death propagates through further links.
pub fn resolve_exit_reason(run_reason: ExitReason, linked_reason: &mut Option<ExitReason>) -> (r: ExitReason)
    ensures
        (run_reason is Normal && *old(linked_reason) is Some) ==> r == (*old(linked_reason))->Some_0
            && *final(linked_reason) is None,
        !(run_reason is Normal && *old(linked_reason) is Some) ==> r == run_reason
            && *final(linked_reason) == *old(linked_reason),
{
    match run_reason {
        ExitReason::Normal => match linked_reason.take() {
            Some(linked) => linked,
            None => ExitReason::Normal,
        },
        other => other,
    }
}

/// Add an entry for `peer_id` unless the table already has one. Returns
/// whether an entry was added.
pub fn add_link<S>(table: &mut LinkTable<S>, peer_id: ActorId, peer: S) -> (added: bool)
    ensures
        added == !old(table).has_peer(peer_id),
        added ==> final(table).view() == old(table).view().push(LinkEntry { peer_id, peer }),
        !added ==> final(table).view() == old(table).view(),
{
    if table.contains_peer(peer_id) {
        false
    } else {
        table.entries.push(LinkEntry { peer_id, peer });
        true
    }
}

/// Register a bidirectional link between two actors: each table gets an
/// entry for the other actor unless it already has one.
pub fn register_link<S>(
    own_id: ActorId,
    own_links: &mut LinkTable<S>,
    own_signal: S,
    peer_id: ActorId,
    peer_links: &mut LinkTable<S>,
    peer_signal: S,
)
    ensures
        final(own_links).view() == (if old(own_links).has_peer(peer_id) { old(own_links).view() } else { old(
            own_links,
        ).view().push(LinkEntry { peer_id, peer: peer_signal }) }),
        final(peer_links).view() == (if old(peer_links).has_peer(own_id) { old(peer_links).view() } else { old(
            peer_links,
        ).view().push(LinkEntry { peer_id: own_id, peer: own_signal }) }),
        final(own_links).has_peer(peer_id),
        final(peer_links).has_peer(own_id),
{
    add_link(own_links, peer_id, peer_signal);
    add_link(peer_links, own_id, own_signal);
    proof {
        if !old(own_links).has_peer(peer_id) {
            assert(own_links.view()[own_links.view().len() - 1].peer_id == peer_id);
        }
        if !old(peer_links).has_peer(own_id) {
            assert(peer_links.view()[peer_links.view().len() - 1].peer_id == own_id);
        }
    }
}

/// Remove every entry for `id` from `table`. Returns whether one was removed.
pub fn remove_peer<S>(table: &mut LinkTable<S>, id: ActorId) -> (removed: bool)
    ensures
        final(table).view() == old(table).view().filter(entry_not_for::<S>(id)),
        !final(table).has_peer(id),
        removed == old(table).has_peer(id),
{
    let ghost pred = entry_not_for::<S>(id);
    let ghost orig = table.entries@;
    let mut kept: Vec<LinkEntry<S>> = Vec::new();
    let mut removed = false;
    while table.entries.len() > 0
        invariant
            pred == entry_not_for::<S>(id),
            table.entries@.len() <= orig.len(),
            table.entries@ == orig.skip(orig.len() - table.entries@.len()),
            kept@ == orig.take(orig.len() - table.entries@.len()).filter(pred),
            removed == exists|k: int| 0 <= k < orig.len() - table.entries@.len() && #[trigger] orig[k].peer_id == id,
        decreases table.entries.len(),
    {
        let ghost n = orig.len() - table.entries@.len();
        proof {
            assert(orig[n] == table.entries@[0]);
            lemma_take_succ_filter(orig, n, pred);
            assert(table.entries@.remove(0) =~= orig.skip(n + 1));
        }
        let e = table.entries.remove(0);
        if e.peer_id != id {
            kept.push(e);
        } else {
            removed = true;
        }
    }
    proof {
        lemma_take_full(orig);
        assert forall|k: int| 0 <= k < kept@.len() implies #[trigger] kept@[k].peer_id != id by {
            broadcast use vstd::seq_lib::group_filter_ensures;
            orig.lemma_filter_pred(pred, k);
        }
    }
    table.entries = kept;
    removed
}


/// Remove a bidirectional link between two actors.
pub fn unregister_link<S>(own_id: ActorId, own_links: &mut LinkTable<S>, peer_id: ActorId, peer_links: &mut LinkTable<S>)
    ensures
        final(own_links).view() == old(own_links).view().filter(entry_not_for::<S>(peer_id)),
        final(peer_links).view() == old(peer_links).view().filter(entry_not_for::<S>(own_id)),
        !final(own_links).has_peer(peer_id),
        !final(peer_links).has_peer(own_id),
{
    remove_peer(own_links, peer_id);
    remove_peer(peer_links, own_id);
}

/// Remove `own_id` from `peer_links`. Returns `true` if an entry was
/// actually removed, i.e. the peer had not already drained its table.
pub fn take_self_from_peer_table<S>(own_id: ActorId, peer_links: &mut LinkTable<S>) -> (removed: bool)
    ensures
        removed == old(peer_links).has_peer(own_id),
        final(peer_links).view() == old(peer_links).view().filter(entry_not_for::<S>(own_id)),
{
    remove_peer(peer_links, own_id)
}

/// Empty the table and return its entries, in the order the links were
/// made. The runtime then removes the dying actor from each peer's table
/// and signals the peer.
pub fn take_entries<S>(table: &mut LinkTable<S>) -> (entries: Vec<LinkEntry<S>>)
    ensures
        entries@ == old(table).view(),
        final(table).view() == Seq::<LinkEntry<S>>::empty(),
{
    let mut taken: Vec<LinkEntry<S>> = Vec::new();
    std::mem::swap(&mut taken, &mut table.entries);
    taken
}

/// `Kill` is untrappable: whatever the receiver's trap flag and slot, the
/// signal cancels it.
pub proof fn law_kill_is_untrappable(trapping: bool, slot: Option<ExitReason>, from: ActorId)
    ensures
        spec_exit_signal(trapping, slot, from, ExitReason::Kill).0 == ExitSignal::Cancel,
{
}

/// A `Normal` exit is not propagated to a linked actor that does not trap
/// exits, and leaves its slot as it was.
pub proof fn law_normal_exit_spares_non_trapping(slot: Option<ExitReason>, from: ActorId)
    ensures
        spec_exit_signal(false, slot, from, ExitReason::Normal) == (ExitSignal::Ignore, slot),
{
}

/// A trapping actor gets every signal but `Kill` as an `Exit` message
/// naming the sender and the reason.
pub proof fn law_trapping_actor_gets_exit(slot: Option<ExitReason>, from: ActorId, reason: ExitReason)
    requires
        !(reason is Kill),
    ensures
        spec_exit_signal(true, slot, from, reason) == (ExitSignal::Deliver(Exit { from, reason }), slot),
{
}

/// An abnormal exit always reaches the linked actor: it is cancelled or
/// gets an `Exit` message.
pub proof fn law_abnormal_exit_reaches_peer(trapping: bool, slot: Option<ExitReason>, from: ActorId, reason: ExitReason)
    requires
        reason.spec_is_abnormal(),
    ensures
        spec_exit_signal(trapping, slot, from, reason).0 != ExitSignal::Ignore,
{
}

/// The first link reason recorded in a slot is the one kept: later
/// signals never overwrite it.
pub proof fn law_first_linked_reason_kept(trapping: bool, slot: Option<ExitReason>, from: ActorId, reason: ExitReason)
    requires
        slot is Some,
    ensures
        spec_exit_signal(trapping, slot, from, reason).1 == slot,
{
}

} // verus!
