//! The runtime's table of actors: for each actor its links, whether it
//! traps exits, the reason a link signal left for it and, once it has
//! exited, its exit reason; and the monitors between actors.
//!
//! Each operation returns the effects the runtime must carry out on the
//! actors' tasks: cancel one, or put an `Exit` or `Down` message in its
//! mailbox.
use vstd::prelude::*;
use std::collections::HashMap;
use crate::child_handle::ActorId;
use crate::error::ExitReason;
use crate::ids::IdCounter;
use crate::link::{
    add_link, entry_not_for, exit_signal, resolve_exit_reason, register_link, take_self_from_peer_table, new_link_table, new_linked_exit_reason, new_trap_exit_flag,
    remove_peer, spec_exit_signal, take_entries, unregister_link, Exit, ExitSignal, LinkEntry, LinkTable,
};
use crate::monitor::{Down, MonitorRef};
use crate::seqs::{lemma_filter_contains_iff, lemma_filter_no_duplicates, lemma_push_no_duplicates};

verus! {

broadcast use vstd::std_specs::hash::group_hash_axioms;

/// What the runtime keeps about one actor.
pub struct ActorSlot {
    /// The actors linked to this one.
    links: LinkTable<()>,
    /// Whether exit signals from linked actors become `Exit` messages.
    trap_exit: bool,
    /// The reason of the link signal that cancelled this actor, if any.
    linked_reason: Option<ExitReason>,
    /// Why the actor exited, once it has.
    exit: Option<ExitReason>,
}

/// The abstract state of one actor.
pub struct ActorView {
    pub links: Seq<LinkEntry<()>>,
    pub trap_exit: bool,
    pub linked_reason: Option<ExitReason>,
    pub exit: Option<ExitReason>,
}

impl ActorSlot {
    pub closed spec fn view(&self) -> ActorView {
        ActorView {
            links: self.links.view(),
            trap_exit: self.trap_exit,
            linked_reason: self.linked_reason,
            exit: self.exit,
        }
    }
}

/// Something the runtime must do to an actor's task.
#[derive(Debug, Clone, PartialEq)]
pub enum ActorEffect {
    /// Cancel the actor.
    Cancel(ActorId),
    /// Put this `Exit` message in the actor's mailbox.
    DeliverExit(ActorId, Exit),
    /// Put this `Down` message in the actor's mailbox.
    DeliverDown(ActorId, Down),
}

/// A table entry linking to `peer`.
pub open spec fn link_to(peer: ActorId) -> LinkEntry<()> {
    LinkEntry { peer_id: peer, peer: () }
}

/// Whether the link table `links` holds `peer`.
pub open spec fn holds(links: Seq<LinkEntry<()>>, peer: ActorId) -> bool {
    links.contains(link_to(peer))
}

/// The effect of the exit signal of `from` with `reason` on actor `to`,
/// whose state is `v`.
pub open spec fn signal_effect(v: ActorView, to: ActorId, from: ActorId, reason: ExitReason) -> Option<ActorEffect> {
    match spec_exit_signal(v.trap_exit, v.linked_reason, from, reason).0 {
        ExitSignal::Ignore => None,
        ExitSignal::Deliver(e) => Some(ActorEffect::DeliverExit(to, e)),
        ExitSignal::Cancel => Some(ActorEffect::Cancel(to)),
    }
}

/// Actor `v` once the exit signal of `from` with `reason` reached it and
/// `from` left its link table.
pub open spec fn signalled(v: ActorView, from: ActorId, reason: ExitReason) -> ActorView {
    ActorView {
        links: v.links.filter(entry_not_for::<()>(from)),
        linked_reason: spec_exit_signal(v.trap_exit, v.linked_reason, from, reason).1,
        ..v
    }
}

/// A freshly spawned actor.
pub open spec fn fresh_actor() -> ActorView {
    ActorView { links: Seq::empty(), trap_exit: false, linked_reason: None, exit: None }
}

/// The table of all actors.
pub struct ActorTable {
    actors: HashMap<u64, ActorSlot>,
    /// Active monitors: reference, watcher, target.
    monitors: Vec<(MonitorRef, ActorId, ActorId)>,
    ids: IdCounter,
    refs: IdCounter,
}

impl ActorTable {
    /// The actors by id.
    pub closed spec fn actors(&self) -> Map<u64, ActorView> {
        self.actors@.map_values(|s: ActorSlot| s.view())
    }

    /// The active monitors, oldest first.
    pub closed spec fn monitors(&self) -> Seq<(MonitorRef, ActorId, ActorId)> {
        self.monitors@
    }

    /// The next actor id handed out.
    pub closed spec fn next_id(&self) -> u64 {
        self.ids.next
    }

    /// The next monitor reference handed out.
    pub closed spec fn next_ref(&self) -> u64 {
        self.refs.next
    }

    /// Whether an actor id is left to hand out before the counter wraps.
    pub fn has_fresh_id(&self) -> (r: bool)
        ensures
            r == (self.next_id() < u64::MAX),
    {
        self.ids.next < u64::MAX
    }

    /// Whether a monitor reference is left to hand out before the counter
    /// wraps.
    pub fn has_fresh_ref(&self) -> (r: bool)
        ensures
            r == (self.next_ref() < u64::MAX),
    {
        self.refs.next < u64::MAX
    }

    /// `a` is in the table.
    pub open spec fn known(&self, a: ActorId) -> bool {
        self.actors().contains_key(a.0)
    }

    /// `a` is in the table and has not exited.
    pub open spec fn alive(&self, a: ActorId) -> bool {
        self.known(a) && self.actors()[a.0].exit is None
    }

    /// `a`'s link table holds `b`.
    pub open spec fn linked(&self, a: ActorId, b: ActorId) -> bool {
        self.known(a) && holds(self.actors()[a.0].links, b)
    }

    /// The table's invariant: link tables hold each peer at most once, never
    /// their own actor, and only known actors; links between live actors
    /// go both ways; exited actors hold no links; ids below `next_id` are
    /// below `next_id`.
    pub open spec fn wf(&self) -> bool {
        &&& forall|a: u64| #[trigger] self.actors().contains_key(a) ==> {
            &&& self.actors()[a].links.no_duplicates()
            &&& !holds(self.actors()[a].links, ActorId(a))
            &&& forall|b: ActorId| holds(self.actors()[a].links, b) ==> #[trigger] self.actors().contains_key(b.0)
            &&& self.actors()[a].exit is Some ==> self.actors()[a].links.len() == 0
            &&& a < self.next_id()
        }
        &&& forall|a: ActorId, b: ActorId| #[trigger] self.linked(a, b) && self.alive(a) && self.alive(b) ==> self.linked(b, a)
    }

    /// An empty table; the first actor id and monitor reference are `1`.
    pub fn new() -> (t: ActorTable)
        ensures
            t.wf(),
            t.actors() == Map::<u64, ActorView>::empty(),
            t.monitors() == Seq::<(MonitorRef, ActorId, ActorId)>::empty(),
            t.next_id() == 1,
            t.next_ref() == 1,
    {
        let t = ActorTable { actors: HashMap::new(), monitors: Vec::new(), ids: IdCounter::new(), refs: IdCounter::new() };
        assert(t.actors() =~= Map::<u64, ActorView>::empty());
        t
    }

    /// Register a new actor: it gets the next id, no links, does not trap
    /// exits and is alive.
    pub fn spawn(&mut self) -> (id: ActorId)
        requires
            old(self).wf(),
            old(self).next_id() < u64::MAX,
        ensures
            final(self).wf(),
            id.0 == old(self).next_id(),
            !old(self).known(id),
            final(self).actors() == old(self).actors().insert(id.0, fresh_actor()),
            final(self).monitors() == old(self).monitors(),
            final(self).next_id() == old(self).next_id() + 1,
            final(self).next_ref() == old(self).next_ref(),
    {
        let id = ActorId::next(&mut self.ids);
        let slot = ActorSlot {
            links: new_link_table(),
            trap_exit: new_trap_exit_flag(),
            linked_reason: new_linked_exit_reason(),
            exit: None,
        };
        self.actors.insert(id.0, slot);
        proof {
            assert(self.actors() =~= old(self).actors().insert(id.0, fresh_actor()));
            assert forall|a: u64| #[trigger] self.actors().contains_key(a) implies {
                &&& self.actors()[a].links.no_duplicates()
                &&& !holds(self.actors()[a].links, ActorId(a))
                &&& forall|b: ActorId| holds(self.actors()[a].links, b) ==> #[trigger] self.actors().contains_key(b.0)
                &&& self.actors()[a].exit is Some ==> self.actors()[a].links.len() == 0
                &&& a < self.next_id()
            } by {
                if a != id.0 {
                    assert(old(self).actors().contains_key(a));
                }
            }
            assert forall|a: ActorId, b: ActorId| #[trigger] self.linked(a, b) && self.alive(a) && self.alive(b) implies self.linked(b, a) by {
                assert(a != id);
                assert(old(self).linked(a, b));
                assert(old(self).actors().contains_key(b.0));
                assert(b != id);
            }
        }
        id
    }

    /// Set whether actor `id` traps exits; unknown ids are ignored.
    pub fn set_trap_exit(&mut self, id: ActorId, enabled: bool)
        requires
            old(self).wf(),
        ensures
            final(self).wf(),
            old(self).known(id) ==> final(self).actors() == old(self).actors().insert(
                id.0,
                ActorView { trap_exit: enabled, ..old(self).actors()[id.0] },
            ),
            !old(self).known(id) ==> final(self).actors() == old(self).actors(),
            final(self).monitors() == old(self).monitors(),
            final(self).next_id() == old(self).next_id(),
            final(self).next_ref() == old(self).next_ref(),
    {
        match self.actors.remove(&id.0) {
            Some(mut slot) => {
                slot.trap_exit = enabled;
                self.actors.insert(id.0, slot);
                proof {
                    assert(self.actors() =~= old(self).actors().insert(
                        id.0,
                        ActorView { trap_exit: enabled, ..old(self).actors()[id.0] },
                    ));
                    lemma_wf_kept(old(self), self);
                }
            },
            None => {
                proof {
                    assert(self.actors() =~= old(self).actors());
                    lemma_wf_kept(old(self), self);
                }
            },
        }
    }

    /// Why actor `id` exited; `None` while it runs (or if it is unknown).
    pub fn exit_reason(&self, id: ActorId) -> (r: Option<ExitReason>)
        ensures
            self.known(id) ==> r == self.actors()[id.0].exit,
            !self.known(id) ==> r is None,
    {
        match self.actors.get(&id.0) {
            Some(slot) => match &slot.exit {
                Some(reason) => Some(reason.duplicate()),
                None => None,
            },
            None => None,
        }
    }

    /// Whether actor `id` is known and has not exited.
    pub fn is_alive(&self, id: ActorId) -> (r: bool)
        ensures
            r == self.alive(id),
    {
        match self.actors.get(&id.0) {
            Some(slot) => slot.exit.is_none(),
            None => false,
        }
    }
}

/// The invariant only looks at the links and exits of the actors.
proof fn lemma_wf_kept(t0: &ActorTable, t1: &ActorTable)
    requires
        t0.wf(),
        t1.actors().dom() == t0.actors().dom(),
        forall|a: u64| #[trigger] t0.actors().contains_key(a) ==> t1.actors()[a].links == t0.actors()[a].links
            && t1.actors()[a].exit == t0.actors()[a].exit,
        t1.next_id() == t0.next_id(),
    ensures
        t1.wf(),
{
    assert forall|a: u64| #[trigger] t1.actors().contains_key(a) implies {
        &&& t1.actors()[a].links.no_duplicates()
        &&& !holds(t1.actors()[a].links, ActorId(a))
        &&& forall|b: ActorId| holds(t1.actors()[a].links, b) ==> #[trigger] t1.actors().contains_key(b.0)
        &&& t1.actors()[a].exit is Some ==> t1.actors()[a].links.len() == 0
        &&& a < t1.next_id()
    } by {
        assert(t0.actors().contains_key(a));
        assert forall|b: ActorId| holds(t1.actors()[a].links, b) implies #[trigger] t1.actors().contains_key(b.0) by {
            assert(holds(t0.actors()[a].links, b));
        }
    }
    assert forall|a: ActorId, b: ActorId| #[trigger] t1.linked(a, b) && t1.alive(a) && t1.alive(b) implies t1.linked(b, a) by {
        assert(t0.actors().contains_key(a.0));
        assert(t0.actors().contains_key(b.0));
        assert(t0.linked(a, b));
    }
}

/// `links` with `peer` added at the end unless it already holds it.
pub open spec fn with_link(links: Seq<LinkEntry<()>>, peer: ActorId) -> Seq<LinkEntry<()>> {
    if holds(links, peer) { links } else { links.push(link_to(peer)) }
}

/// What `with_link` holds.
proof fn lemma_with_link(links: Seq<LinkEntry<()>>, peer: ActorId)
    requires
        links.no_duplicates(),
    ensures
        with_link(links, peer).no_duplicates(),
        forall|q: ActorId| #[trigger] holds(with_link(links, peer), q) <==> holds(links, q) || q == peer,
{
    if !holds(links, peer) {
        lemma_push_no_duplicates(links, link_to(peer));
        assert forall|q: ActorId| #[trigger] holds(with_link(links, peer), q) <==> holds(links, q) || q == peer by {
            if holds(with_link(links, peer), q) && q != peer {
                let k = choose|k: int| 0 <= k < links.len() + 1 && #[trigger] links.push(link_to(peer))[k] == link_to(q);
                assert(k < links.len());
                assert(links[k] == link_to(q));
            }
            if holds(links, q) {
                let k = choose|k: int| 0 <= k < links.len() && links[k] == link_to(q);
                assert(links.push(link_to(peer))[k] == link_to(q));
            }
            if q == peer {
                assert(links.push(link_to(peer))[links.len() as int] == link_to(q));
            }
        }
    }
}

/// The effects of one exit signal, as a sequence.
pub open spec fn effect_seq(e: Option<ActorEffect>) -> Seq<ActorEffect> {
    match e {
        Some(x) => seq![x],
        None => Seq::empty(),
    }
}

impl ActorTable {
    /// Link actor `own` with actor `target`, both ways. Linking a pair that
    /// is linked already does nothing, and an actor linked to itself is
    /// left as it is. When `target` has already exited, `own` at once gets
    /// the exit signal `target` sent on its exit, and `target` keeps no link.
    pub fn link(&mut self, own: ActorId, target: ActorId) -> (effects: Vec<ActorEffect>)
        requires
            old(self).wf(),
            old(self).alive(own),
            old(self).known(target),
        ensures
            final(self).wf(),
            final(self).monitors() == old(self).monitors(),
            final(self).next_id() == old(self).next_id(),
            final(self).next_ref() == old(self).next_ref(),
            own == target ==> final(self).actors() == old(self).actors() && effects@.len() == 0,
            own != target && holds(old(self).actors()[own.0].links, target) ==> final(self).actors() == old(self).actors()
                && effects@.len() == 0,
            own != target && !holds(old(self).actors()[own.0].links, target) && old(self).alive(target) ==> {
                let o = old(self).actors()[own.0];
                let t = old(self).actors()[target.0];
                &&& final(self).actors() == old(self).actors().insert(own.0, ActorView { links: with_link(o.links, target), ..o }).insert(
                    target.0,
                    ActorView { links: with_link(t.links, own), ..t },
                )
                &&& effects@.len() == 0
            },
            own != target && !holds(old(self).actors()[own.0].links, target) && !old(self).alive(target) ==> {
                let o = old(self).actors()[own.0];
                let reason = old(self).actors()[target.0].exit->Some_0;
                &&& final(self).actors() == old(self).actors().insert(
                    own.0,
                    ActorView {
                        links: with_link(o.links, target),
                        linked_reason: spec_exit_signal(o.trap_exit, o.linked_reason, target, reason).1,
                        ..o
                    },
                )
                &&& effects@ == effect_seq(signal_effect(o, own, target, reason))
            },
    {
        let mut effects: Vec<ActorEffect> = Vec::new();
        if own.0 == target.0 {
            return effects;
        }
        let mut a = match self.actors.remove(&own.0) {
            Some(slot) => slot,
            None => {
                return effects;
            },
        };
        if a.links.contains_peer(target) {
            proof {
                lemma_has_peer_holds(a.links, target);
            }
            self.actors.insert(own.0, a);
            proof {
                assert(self.actors() =~= old(self).actors());
                assert(self.next_id() == old(self).next_id());
                assert forall|x: ActorId, y: ActorId| #[trigger] self.linked(x, y) && self.alive(x) && self.alive(y)
                    implies self.linked(y, x) by {
                    assert(old(self).linked(x, y));
                }
            }
            return effects;
        }
        let mut b = match self.actors.remove(&target.0) {
            Some(slot) => slot,
            None => {
                self.actors.insert(own.0, a);
                return effects;
            },
        };
        let ghost o = a.view();
        let ghost t = b.view();
        let ghost old_a_links = a.links;
        let ghost old_b_links = b.links;
        register_link(own, &mut a.links, (), target, &mut b.links, ());
        let target_exit = match &b.exit {
            Some(reason) => Some(reason.duplicate()),
            None => None,
        };
        match target_exit {
            Some(reason) => {
                let removed = take_self_from_peer_table(own, &mut b.links);
                if removed {
                    let signal = exit_signal(a.trap_exit, &mut a.linked_reason, target, reason);
                    match signal {
                        ExitSignal::Ignore => {},
                        ExitSignal::Deliver(e) => effects.push(ActorEffect::DeliverExit(own, e)),
                        ExitSignal::Cancel => effects.push(ActorEffect::Cancel(own)),
                    }
                }
            },
            None => {},
        }
        self.actors.insert(own.0, a);
        self.actors.insert(target.0, b);
        proof {
            lemma_has_peer_holds(old_a_links, target);
            lemma_has_peer_holds(old_b_links, own);
            lemma_with_link(o.links, target);
            lemma_with_link(t.links, own);
            assert(self.actors() =~= old(self).actors().insert(own.0, a.view()).insert(target.0, b.view()));
            if t.exit is Some {
                assert(t.links.len() == 0);
                assert(b.links.view() =~= Seq::<LinkEntry<()>>::empty()) by {
                    let none = Seq::<LinkEntry<()>>::empty();
                    assert(with_link(t.links, own) =~= none.push(link_to(own)));
                    none.lemma_filter_push(link_to(own), entry_not_for::<()>(own));
                    assert(none.filter(entry_not_for::<()>(own)) =~= none) by {
                        reveal(Seq::filter);
                    }
                }
                assert(b.view().links =~= t.links);
                assert(b.view() == t);
                assert(self.actors() =~= old(self).actors().insert(own.0, a.view()));
            }
            assert(self.actors().dom() =~= old(self).actors().dom());
            self.lemma_link_wf(old(self), own, target);
        }
        effects
    }
}

/// In a table of unit-payload entries, holding an entry for `id` is
/// holding `link_to(id)`.
proof fn lemma_has_peer_holds(t: LinkTable<()>, id: ActorId)
    ensures
        t.has_peer(id) <==> holds(t.view(), id),
{
    if t.has_peer(id) {
        let i = choose|i: int| 0 <= i < t.view().len() && #[trigger] t.view()[i].peer_id == id;
        let e = t.view()[i];
        assert(e.peer == ());
        assert(e == link_to(id));
    }
    if holds(t.view(), id) {
        let i = choose|i: int| 0 <= i < t.view().len() && t.view()[i] == link_to(id);
        assert(t.view()[i].peer_id == id);
    }
}

impl ActorTable {
    /// The invariant after `link(own, target)`.
    proof fn lemma_link_wf(&self, t0: &ActorTable, own: ActorId, target: ActorId)
        requires
            t0.wf(),
            t0.alive(own),
            t0.known(target),
            own != target,
            self.next_id() == t0.next_id(),
            self.actors().dom() == t0.actors().dom(),
            forall|x: u64| #[trigger] t0.actors().contains_key(x) && x != own.0 && x != target.0 ==> self.actors()[x] == t0.actors()[x],
            self.actors()[own.0].links == with_link(t0.actors()[own.0].links, target),
            self.actors()[own.0].exit is None,
            self.actors()[target.0].exit == t0.actors()[target.0].exit,
            t0.alive(target) ==> self.actors()[target.0].links == with_link(t0.actors()[target.0].links, own),
            !t0.alive(target) ==> self.actors()[target.0].links.len() == 0,
        ensures
            self.wf(),
    {
        lemma_with_link(t0.actors()[own.0].links, target);
        lemma_with_link(t0.actors()[target.0].links, own);
        assert forall|a: u64| #[trigger] self.actors().contains_key(a) implies {
            &&& self.actors()[a].links.no_duplicates()
            &&& !holds(self.actors()[a].links, ActorId(a))
            &&& forall|b: ActorId| holds(self.actors()[a].links, b) ==> #[trigger] self.actors().contains_key(b.0)
            &&& self.actors()[a].exit is Some ==> self.actors()[a].links.len() == 0
            &&& a < self.next_id()
        } by {
            assert(t0.actors().contains_key(a));
            if a == target.0 && !t0.alive(target) {
                assert(!holds(self.actors()[a].links, ActorId(a)));
            }
            assert forall|b: ActorId| holds(self.actors()[a].links, b) implies #[trigger] self.actors().contains_key(b.0) by {
                if a != own.0 && a != target.0 {
                    assert(holds(t0.actors()[a].links, b));
                } else if a == own.0 {
                    if b != target {
                        assert(holds(t0.actors()[a].links, b));
                    }
                } else if t0.alive(target) {
                    if b != own {
                        assert(holds(t0.actors()[a].links, b));
                    }
                }
            }
        }
        assert forall|x: ActorId, y: ActorId| #[trigger] self.linked(x, y) && self.alive(x) && self.alive(y) implies self.linked(y, x) by {
            assert(t0.known(x) && t0.known(y));
            if x == own {
                if y != target {
                    assert(t0.linked(x, y));
                    assert(t0.linked(y, x));
                }
            } else if x == target {
                assert(t0.alive(target));
                if y != own {
                    assert(t0.linked(x, y));
                    assert(t0.linked(y, x));
                }
            } else {
                assert(t0.linked(x, y));
                assert(t0.alive(x));
                if y == target {
                    assert(t0.alive(y));
                }
                assert(t0.alive(y));
                assert(t0.linked(y, x));
            }
        }
    }
}

/// Whether holding `link_to(q)` survives dropping `p` from a table.
proof fn lemma_holds_without(links: Seq<LinkEntry<()>>, p: ActorId, q: ActorId)
    ensures
        holds(links.filter(entry_not_for::<()>(p)), q) <==> holds(links, q) && q != p,
{
    lemma_filter_contains_iff(links, entry_not_for::<()>(p), link_to(q));
}

/// The exit signal of `from` with `reason` as it reaches the peer of the
/// table entry `e` in `actors`.
pub open spec fn entry_effect(actors: Map<u64, ActorView>, from: ActorId, reason: ExitReason) -> spec_fn(LinkEntry<()>) -> Option<ActorEffect> {
    |e: LinkEntry<()>| signal_effect(actors[e.peer_id.0], e.peer_id, from, reason)
}

/// The actors once `own` has signalled its exit with `reason` to the
/// peers in its link table and emptied it.
pub open spec fn after_propagate(actors: Map<u64, ActorView>, own: ActorId, reason: ExitReason) -> Map<u64, ActorView> {
    Map::new(
        |x: u64| actors.contains_key(x),
        |x: u64| if x == own.0 {
            ActorView { links: Seq::empty(), ..actors[x] }
        } else if holds(actors[own.0].links, ActorId(x)) {
            signalled(actors[x], own, reason)
        } else {
            actors[x]
        },
    )
}

impl ActorTable {
    /// Remove the link between `own` and `target`, both ways.
    pub fn unlink(&mut self, own: ActorId, target: ActorId)
        requires
            old(self).wf(),
            old(self).known(own),
            old(self).known(target),
        ensures
            final(self).wf(),
            final(self).monitors() == old(self).monitors(),
            final(self).next_id() == old(self).next_id(),
            final(self).next_ref() == old(self).next_ref(),
            own == target ==> final(self).actors() == old(self).actors(),
            own != target ==> {
                let o = old(self).actors()[own.0];
                let t = old(self).actors()[target.0];
                final(self).actors() == old(self).actors().insert(
                    own.0,
                    ActorView { links: o.links.filter(entry_not_for::<()>(target)), ..o },
                ).insert(target.0, ActorView { links: t.links.filter(entry_not_for::<()>(own)), ..t })
            },
    {
        if own.0 == target.0 {
            return;
        }
        let mut a = match self.actors.remove(&own.0) {
            Some(slot) => slot,
            None => {
                return;
            },
        };
        let mut b = match self.actors.remove(&target.0) {
            Some(slot) => slot,
            None => {
                self.actors.insert(own.0, a);
                return;
            },
        };
        let ghost o = a.view();
        let ghost t = b.view();
        unregister_link(own, &mut a.links, target, &mut b.links);
        self.actors.insert(own.0, a);
        self.actors.insert(target.0, b);
        proof {
            let t0 = old(self);
            assert(self.actors() =~= t0.actors().insert(own.0, a.view()).insert(target.0, b.view()));
            lemma_filter_no_duplicates(o.links, entry_not_for::<()>(target));
            lemma_filter_no_duplicates(t.links, entry_not_for::<()>(own));
            assert forall|x: u64| #[trigger] self.actors().contains_key(x) implies {
                &&& self.actors()[x].links.no_duplicates()
                &&& !holds(self.actors()[x].links, ActorId(x))
                &&& forall|y: ActorId| holds(self.actors()[x].links, y) ==> #[trigger] self.actors().contains_key(y.0)
                &&& self.actors()[x].exit is Some ==> self.actors()[x].links.len() == 0
                &&& x < self.next_id()
            } by {
                assert(t0.actors().contains_key(x));
                lemma_holds_without(o.links, target, ActorId(x));
                lemma_holds_without(t.links, own, ActorId(x));
                assert forall|y: ActorId| holds(self.actors()[x].links, y) implies #[trigger] self.actors().contains_key(y.0) by {
                    lemma_holds_without(o.links, target, y);
                    lemma_holds_without(t.links, own, y);
                    assert(holds(t0.actors()[x].links, y));
                }
                if self.actors()[x].exit is Some {
                    assert(t0.actors()[x].links.len() == 0);
                    if x == own.0 {
                        assert(o.links =~= Seq::<LinkEntry<()>>::empty());
                        assert(o.links.filter(entry_not_for::<()>(target)) =~= o.links) by {
                            reveal(Seq::filter);
                        }
                    } else if x == target.0 {
                        assert(t.links =~= Seq::<LinkEntry<()>>::empty());
                        assert(t.links.filter(entry_not_for::<()>(own)) =~= t.links) by {
                            reveal(Seq::filter);
                        }
                    }
                }
            }
            assert forall|x: ActorId, y: ActorId| #[trigger] self.linked(x, y) && self.alive(x) && self.alive(y) implies self.linked(y, x) by {
                lemma_holds_without(o.links, target, y);
                lemma_holds_without(t.links, own, y);
                lemma_holds_without(o.links, target, x);
                lemma_holds_without(t.links, own, x);
                assert(t0.known(x) && t0.known(y));
                assert(t0.linked(x, y));
                assert(t0.alive(x) && t0.alive(y));
                assert(t0.linked(y, x));
            }
        }
    }

    /// Signal the exit of `own` with `reason` to every actor in its link
    /// table, in the order the links were made, each peer first dropping
    /// `own` from its own table; `own`'s table is emptied. Returns the
    /// effects of the signals.
    pub fn propagate_exit(&mut self, own: ActorId, reason: &ExitReason) -> (effects: Vec<ActorEffect>)
        requires
            old(self).wf(),
            old(self).alive(own),
        ensures
            final(self).wf(),
            final(self).actors() == after_propagate(old(self).actors(), own, *reason),
            effects@ == old(self).actors()[own.0].links.filter_map(entry_effect(old(self).actors(), own, *reason)),
            final(self).monitors() == old(self).monitors(),
            final(self).next_id() == old(self).next_id(),
            final(self).next_ref() == old(self).next_ref(),
    {
        let ghost t0 = *old(self);
        let ghost f = entry_effect(t0.actors(), own, *reason);
        let mut mine = match self.actors.remove(&own.0) {
            Some(slot) => slot,
            None => {
                return Vec::new();
            },
        };
        let entries = take_entries(&mut mine.links);
        let ghost es = entries@;
        let mut effects: Vec<ActorEffect> = Vec::new();
        let mut j: usize = 0;
        while j < entries.len()
            invariant
                es == entries@,
                es == t0.actors()[own.0].links,
                t0.wf(),
                t0.alive(own),
                f == entry_effect(t0.actors(), own, *reason),
                j <= entries.len(),
                mine.view() == (ActorView { links: Seq::empty(), ..t0.actors()[own.0] }),
                self.actors().dom() == t0.actors().dom().remove(own.0),
                forall|x: u64| #[trigger] self.actors().contains_key(x) ==> self.actors()[x] == (if holds(es.take(j as int), ActorId(x)) {
                    signalled(t0.actors()[x], own, *reason)
                } else {
                    t0.actors()[x]
                }),
                effects@ == es.take(j as int).filter_map(f),
                self.monitors == t0.monitors,
                self.ids == t0.ids,
                self.refs == t0.refs,
            decreases entries.len() - j,
        {
            let peer = entries[j].peer_id;
            proof {
                es.lemma_filter_map_take_succ(f, j as int);
                assert(es.take(j + 1) =~= es.take(j as int).push(es[j as int]));
                assert(es[j as int].peer == ());
                assert(es[j as int] == link_to(peer));
                assert(holds(es, peer));
                assert(t0.actors().contains_key(peer.0));
                assert(peer != own);
                assert(!holds(es.take(j as int), peer)) by {
                    if holds(es.take(j as int), peer) {
                        let k = choose|k: int| 0 <= k < j && #[trigger] es.take(j as int)[k] == link_to(peer);
                        assert(es[k] == es[j as int]);
                    }
                }
            }
            let ghost before = self.actors();
            match self.actors.remove(&peer.0) {
                Some(mut ps) => {
                    let ghost pv = ps.view();
                    remove_peer(&mut ps.links, own);
                    let signal = exit_signal(ps.trap_exit, &mut ps.linked_reason, own, reason.duplicate());
                    match signal {
                        ExitSignal::Ignore => {},
                        ExitSignal::Deliver(e) => effects.push(ActorEffect::DeliverExit(peer, e)),
                        ExitSignal::Cancel => effects.push(ActorEffect::Cancel(peer)),
                    }
                    self.actors.insert(peer.0, ps);
                    proof {
                        assert(pv == t0.actors()[peer.0]);
                        assert(ps.view().links =~= signalled(pv, own, *reason).links);
                        assert(ps.view() == signalled(pv, own, *reason));
                        assert(self.actors() =~= before.insert(peer.0, ps.view()));
                    }
                },
                None => {},
            }
            proof {
                assert forall|x: u64| #[trigger] self.actors().contains_key(x) implies self.actors()[x] == (if holds(es.take(j + 1), ActorId(x)) {
                    signalled(t0.actors()[x], own, *reason)
                } else {
                    t0.actors()[x]
                }) by {
                    if x != peer.0 {
                        assert(holds(es.take(j + 1), ActorId(x)) == holds(es.take(j as int), ActorId(x))) by {
                            if holds(es.take(j + 1), ActorId(x)) {
                                let k = choose|k: int| 0 <= k < j + 1 && #[trigger] es.take(j + 1)[k] == link_to(ActorId(x));
                                if k == j {
                                    assert(link_to(peer) == link_to(ActorId(x)));
                                }
                                assert(es.take(j as int)[k] == link_to(ActorId(x)));
                            }
                            if holds(es.take(j as int), ActorId(x)) {
                                let k = choose|k: int| 0 <= k < j && #[trigger] es.take(j as int)[k] == link_to(ActorId(x));
                                assert(es.take(j + 1)[k] == link_to(ActorId(x)));
                            }
                        }
                    } else {
                        assert(es.take(j + 1)[j as int] == link_to(peer));
                    }
                }
            }
            j = j + 1;
        }
        self.actors.insert(own.0, mine);
        proof {
            crate::seqs::lemma_take_full(es);
            let target = after_propagate(t0.actors(), own, *reason);
            assert(self.actors() =~= target);
            self.lemma_propagate_wf(&t0, own, *reason);
        }
        effects
    }
}

impl ActorTable {
    /// The invariant after `propagate_exit`.
    proof fn lemma_propagate_wf(&self, t0: &ActorTable, own: ActorId, reason: ExitReason)
        requires
            t0.wf(),
            t0.alive(own),
            self.actors() == after_propagate(t0.actors(), own, reason),
            self.next_id() == t0.next_id(),
        ensures
            self.wf(),
    {
        let o = t0.actors()[own.0];
        assert forall|x: u64| #[trigger] self.actors().contains_key(x) implies {
            &&& self.actors()[x].links.no_duplicates()
            &&& !holds(self.actors()[x].links, ActorId(x))
            &&& forall|y: ActorId| holds(self.actors()[x].links, y) ==> #[trigger] self.actors().contains_key(y.0)
            &&& self.actors()[x].exit is Some ==> self.actors()[x].links.len() == 0
            &&& x < self.next_id()
        } by {
            let v = t0.actors()[x];
            assert(t0.actors().contains_key(x));
            if x == own.0 {
                assert(self.actors()[x].links =~= Seq::<LinkEntry<()>>::empty());
            } else if holds(o.links, ActorId(x)) {
                lemma_filter_no_duplicates(v.links, entry_not_for::<()>(own));
                lemma_holds_without(v.links, own, ActorId(x));
                assert forall|y: ActorId| holds(self.actors()[x].links, y) implies #[trigger] self.actors().contains_key(y.0) by {
                    lemma_holds_without(v.links, own, y);
                    assert(holds(v.links, y));
                }
                if v.exit is Some {
                    assert(v.links =~= Seq::<LinkEntry<()>>::empty());
                    assert(v.links.filter(entry_not_for::<()>(own)) =~= v.links) by {
                        reveal(Seq::filter);
                    }
                }
            } else {
                assert forall|y: ActorId| holds(self.actors()[x].links, y) implies #[trigger] self.actors().contains_key(y.0) by {
                    assert(holds(v.links, y));
                }
            }
        }
        assert forall|x: ActorId, y: ActorId| #[trigger] self.linked(x, y) && self.alive(x) && self.alive(y) implies self.linked(y, x) by {
            assert(t0.known(x) && t0.known(y));
            assert(x != own) by {
                if x == own {
                    assert(!holds(Seq::<LinkEntry<()>>::empty(), y));
                }
            }
            let vx = t0.actors()[x.0];
            let vy = t0.actors()[y.0];
            lemma_holds_without(vx.links, own, y);
            lemma_holds_without(vy.links, own, x);
            assert(holds(vx.links, y));
            assert(t0.linked(x, y));
            assert(t0.alive(x) && t0.alive(y));
            assert(t0.linked(y, x));
            if y == own {
                assert(t0.linked(own, x));
                assert(holds(o.links, x));
                lemma_holds_without(vx.links, own, own);
            }
        }
    }
}

/// Keep the monitors whose target is not `a`.
pub open spec fn not_watching(a: ActorId) -> spec_fn((MonitorRef, ActorId, ActorId)) -> bool {
    |m: (MonitorRef, ActorId, ActorId)| m.2 != a
}

/// Keep the monitors other than `r` of `watcher`.
pub open spec fn other_monitor(watcher: ActorId, r: MonitorRef) -> spec_fn((MonitorRef, ActorId, ActorId)) -> bool {
    |m: (MonitorRef, ActorId, ActorId)| !(m.0 == r && m.1 == watcher)
}

/// The `Down` a monitor on `a` delivers when `a` exits with `reason`.
pub open spec fn down_for(a: ActorId, reason: ExitReason) -> spec_fn((MonitorRef, ActorId, ActorId)) -> Option<ActorEffect> {
    |m: (MonitorRef, ActorId, ActorId)| if m.2 == a {
        Some(ActorEffect::DeliverDown(m.1, Down { monitor_ref: m.0, reason }))
    } else {
        None
    }
}

impl ActorTable {
    /// Start monitoring `target` from `watcher`; returns the new monitor's
    /// reference. If `target` has already exited, `watcher` gets its
    /// `Down` at once and no monitor is kept.
    pub fn monitor(&mut self, watcher: ActorId, target: ActorId) -> (r: (MonitorRef, Vec<ActorEffect>))
        requires
            old(self).wf(),
            old(self).known(target),
            old(self).next_ref() < u64::MAX,
        ensures
            final(self).wf(),
            r.0.0 == old(self).next_ref(),
            final(self).next_ref() == old(self).next_ref() + 1,
            final(self).actors() == old(self).actors(),
            final(self).next_id() == old(self).next_id(),
            old(self).alive(target) ==> final(self).monitors() == old(self).monitors().push((r.0, watcher, target))
                && r.1@.len() == 0,
            !old(self).alive(target) ==> final(self).monitors() == old(self).monitors() && r.1@ == seq![
                ActorEffect::DeliverDown(
                    watcher,
                    Down { monitor_ref: r.0, reason: old(self).actors()[target.0].exit->Some_0 },
                ),
            ],
    {
        let monitor_ref = MonitorRef::next(&mut self.refs);
        let mut effects: Vec<ActorEffect> = Vec::new();
        match self.exit_reason(target) {
            Some(reason) => {
                effects.push(ActorEffect::DeliverDown(watcher, Down { monitor_ref, reason }));
            },
            None => {
                self.monitors.push((monitor_ref, watcher, target));
            },
        }
        proof {
            assert(self.actors() =~= old(self).actors());
            lemma_wf_kept(old(self), self);
        }
        (monitor_ref, effects)
    }

    /// Cancel monitor `r` of `watcher`: no `Down` will come from it.
    pub fn demonitor(&mut self, watcher: ActorId, r: MonitorRef)
        requires
            old(self).wf(),
        ensures
            final(self).wf(),
            final(self).monitors() == old(self).monitors().filter(other_monitor(watcher, r)),
            final(self).actors() == old(self).actors(),
            final(self).next_id() == old(self).next_id(),
            final(self).next_ref() == old(self).next_ref(),
    {
        let ghost pred = other_monitor(watcher, r);
        let ghost ms = self.monitors@;
        let mut kept: Vec<(MonitorRef, ActorId, ActorId)> = Vec::new();
        let mut i: usize = 0;
        while i < self.monitors.len()
            invariant
                ms == self.monitors@,
                pred == other_monitor(watcher, r),
                i <= self.monitors.len(),
                kept@ == ms.take(i as int).filter(pred),
            decreases self.monitors.len() - i,
        {
            proof {
                crate::seqs::lemma_take_succ_filter(ms, i as int, pred);
            }
            let m = self.monitors[i];
            if !(m.0 == r && m.1 == watcher) {
                kept.push(m);
            }
            i = i + 1;
        }
        proof {
            crate::seqs::lemma_take_full(ms);
        }
        self.monitors = kept;
        proof {
            assert(self.actors() =~= old(self).actors());
            lemma_wf_kept(old(self), self);
        }
    }

    /// Drop the monitors on `a`, returning the `Down`s they deliver for
    /// `reason`, oldest monitor first.
    fn take_monitors_of(&mut self, a: ActorId, reason: &ExitReason) -> (effects: Vec<ActorEffect>)
        requires
            old(self).wf(),
        ensures
            final(self).wf(),
            final(self).monitors() == old(self).monitors().filter(not_watching(a)),
            effects@ == old(self).monitors().filter_map(down_for(a, *reason)),
            final(self).actors() == old(self).actors(),
            final(self).next_id() == old(self).next_id(),
            final(self).next_ref() == old(self).next_ref(),
    {
        let ghost pred = not_watching(a);
        let ghost f = down_for(a, *reason);
        let ghost ms = self.monitors@;
        let mut kept: Vec<(MonitorRef, ActorId, ActorId)> = Vec::new();
        let mut effects: Vec<ActorEffect> = Vec::new();
        let mut i: usize = 0;
        while i < self.monitors.len()
            invariant
                ms == self.monitors@,
                pred == not_watching(a),
                f == down_for(a, *reason),
                i <= self.monitors.len(),
                kept@ == ms.take(i as int).filter(pred),
                effects@ == ms.take(i as int).filter_map(f),
            decreases self.monitors.len() - i,
        {
            proof {
                crate::seqs::lemma_take_succ_filter(ms, i as int, pred);
                ms.lemma_filter_map_take_succ(f, i as int);
            }
            let m = self.monitors[i];
            if m.2 == a {
                effects.push(ActorEffect::DeliverDown(m.1, Down { monitor_ref: m.0, reason: reason.duplicate() }));
            } else {
                kept.push(m);
            }
            i = i + 1;
        }
        proof {
            crate::seqs::lemma_take_full(ms);
        }
        self.monitors = kept;
        proof {
            assert(self.actors() =~= old(self).actors());
            lemma_wf_kept(old(self), self);
        }
        effects
    }

    /// Record that actor `id` ended its run with `run_reason`, and work out
    /// what its exit does.
    ///
    /// Its exit reason is `run_reason`, or, when that is `Normal` and a
    /// link signal cancelled it, the reason of that signal, so the death
    /// propagates through further links. Its exit is signalled to the
    /// actors linked to it (see [`ActorTable::propagate_exit`]), then its
    /// monitors deliver their `Down`s and are dropped. Returns the exit
    /// reason and the effects, link signals first.
    pub fn finish(&mut self, id: ActorId, run_reason: ExitReason) -> (r: (ExitReason, Vec<ActorEffect>))
        requires
            old(self).wf(),
            old(self).alive(id),
        ensures
            final(self).wf(),
            !final(self).alive(id),
            ({
                let o = old(self).actors()[id.0];
                let reason = if run_reason is Normal && o.linked_reason is Some { o.linked_reason->Some_0 } else { run_reason };
                let slot = if run_reason is Normal && o.linked_reason is Some { None } else { o.linked_reason };
                let resolved = old(self).actors().insert(id.0, ActorView { linked_reason: slot, ..o });
                let propagated = after_propagate(resolved, id, reason);
                &&& r.0 == reason
                &&& final(self).actors() == propagated.insert(id.0, ActorView { exit: Some(reason), ..propagated[id.0] })
                &&& r.1@ == o.links.filter_map(entry_effect(resolved, id, reason)) + old(self).monitors().filter_map(
                    down_for(id, reason),
                )
                &&& final(self).monitors() == old(self).monitors().filter(not_watching(id))
            }),
            final(self).next_id() == old(self).next_id(),
            final(self).next_ref() == old(self).next_ref(),
    {
        let mut slot = match self.actors.remove(&id.0) {
            Some(s) => s,
            None => {
                return (run_reason, Vec::new());
            },
        };
        let reason = resolve_exit_reason(run_reason, &mut slot.linked_reason);
        self.actors.insert(id.0, slot);
        let ghost resolved = self.actors();
        proof {
            assert(resolved =~= old(self).actors().insert(id.0, slot.view()));
            lemma_wf_kept(old(self), self);
        }
        let mut effects = self.propagate_exit(id, &reason);
        let ghost propagated = self.actors();
        let ghost mid = *self;
        match self.actors.remove(&id.0) {
            Some(mut s) => {
                s.exit = Some(reason.duplicate());
                self.actors.insert(id.0, s);
                proof {
                    assert(self.actors() =~= propagated.insert(id.0, ActorView { exit: Some(reason), ..propagated[id.0] }));
                    lemma_set_exit_wf(&mid, self, id, reason);
                }
            },
            None => {
                proof {
                    assert(propagated.contains_key(id.0));
                }
            },
        }
        let mut downs = self.take_monitors_of(id, &reason);
        effects.append(&mut downs);
        (reason, effects)
    }
}

/// Marking an actor with an empty link table as exited keeps the invariant.
proof fn lemma_set_exit_wf(t0: &ActorTable, t1: &ActorTable, id: ActorId, reason: ExitReason)
    requires
        t0.wf(),
        t0.known(id),
        t0.actors()[id.0].links.len() == 0,
        t1.actors() == t0.actors().insert(id.0, ActorView { exit: Some(reason), ..t0.actors()[id.0] }),
        t1.next_id() == t0.next_id(),
    ensures
        t1.wf(),
{
    assert forall|a: u64| #[trigger] t1.actors().contains_key(a) implies {
        &&& t1.actors()[a].links.no_duplicates()
        &&& !holds(t1.actors()[a].links, ActorId(a))
        &&& forall|b: ActorId| holds(t1.actors()[a].links, b) ==> #[trigger] t1.actors().contains_key(b.0)
        &&& t1.actors()[a].exit is Some ==> t1.actors()[a].links.len() == 0
        &&& a < t1.next_id()
    } by {
        assert(t0.actors().contains_key(a));
        assert forall|b: ActorId| holds(t1.actors()[a].links, b) implies #[trigger] t1.actors().contains_key(b.0) by {
            assert(holds(t0.actors()[a].links, b));
        }
    }
    assert forall|a: ActorId, b: ActorId| #[trigger] t1.linked(a, b) && t1.alive(a) && t1.alive(b) implies t1.linked(b, a) by {
        assert(t0.linked(a, b));
    }
}

/// Links between live actors go both ways.
pub proof fn law_links_between_live_actors_are_mutual(t: &ActorTable, a: ActorId, b: ActorId)
    requires
        t.wf(),
        t.alive(a),
        t.alive(b),
        t.linked(a, b),
    ensures
        t.linked(b, a),
{
}

/// Linking the same pair twice is linking it once: after a link, the
/// actor holds its peer, and `link` on a pair whose actor holds the peer
/// changes nothing and signals nothing.
pub proof fn law_link_is_idempotent(links: Seq<LinkEntry<()>>, peer: ActorId)
    requires
        links.no_duplicates(),
    ensures
        holds(with_link(links, peer), peer),
        with_link(with_link(links, peer), peer) == with_link(links, peer),
{
    lemma_with_link(links, peer);
}

/// An abnormal exit reaches every linked actor: one effect per link, in
/// link order, each cancelling the peer or putting in its mailbox an `Exit`
/// naming the dead actor and its reason.
pub proof fn law_abnormal_exit_signals_every_peer(
    actors: Map<u64, ActorView>,
    own: ActorId,
    reason: ExitReason,
    links: Seq<LinkEntry<()>>,
)
    requires
        reason.spec_is_abnormal(),
    ensures
        links.filter_map(entry_effect(actors, own, reason)).len() == links.len(),
        forall|k: int| 0 <= k < links.len() ==> {
            let e = #[trigger] links.filter_map(entry_effect(actors, own, reason))[k];
            e == ActorEffect::Cancel(links[k].peer_id) || e == ActorEffect::DeliverExit(links[k].peer_id, Exit { from: own, reason })
        },
{
    let f = entry_effect(actors, own, reason);
    assert forall|i: int| 0 <= i < links.len() implies (#[trigger] f(links[i])) is Some by {
        let v = actors[links[i].peer_id.0];
        crate::link::law_abnormal_exit_reaches_peer(v.trap_exit, v.linked_reason, own, reason);
    }
    crate::seqs::lemma_filter_map_total(links, f);
}

/// Whether an effect is addressed to actor `a`.
pub open spec fn addressed_to(a: ActorId) -> spec_fn(ActorEffect) -> bool {
    |e: ActorEffect| match e {
        ActorEffect::Cancel(x) => x == a,
        ActorEffect::DeliverExit(x, _) => x == a,
        ActorEffect::DeliverDown(x, _) => x == a,
    }
}

/// What a link table holds after one more entry, when it held no peer
/// twice before and holds none twice after.
proof fn lemma_holds_push(d: Seq<LinkEntry<()>>, x: LinkEntry<()>, a: ActorId)
    requires
        d.push(x).no_duplicates(),
    ensures
        holds(d.push(x), a) <==> holds(d, a) || x.peer_id == a,
        !(x.peer_id == a && holds(d, a)),
{
    let l = d.push(x);
    assert(x.peer == ());
    assert(x == link_to(x.peer_id));
    if holds(l, a) && x.peer_id != a {
        let k = choose|k: int| 0 <= k < l.len() && l[k] == link_to(a);
        assert(k < d.len());
        assert(d[k] == link_to(a));
    }
    if holds(d, a) {
        let k = choose|k: int| 0 <= k < d.len() && d[k] == link_to(a);
        assert(l[k] == link_to(a));
        if x.peer_id == a {
            assert(l[k] == l[l.len() - 1]);
        }
    }
    if x.peer_id == a {
        assert(l[l.len() - 1] == link_to(a));
    }
}

/// An exit signal reaches a linked actor exactly once. Of the effects of
/// `from`'s exit on the peers in its link table, those addressed to the
/// peer `a` are the one signal `a` gets, which is also what `link` hands
/// back when `a` links to `from` after it exited; a table that does not
/// hold `a` addresses nothing to it. The signal is there whenever the exit
/// is abnormal or `a` traps exits.
pub proof fn law_exit_signal_reaches_linked_actor_once(
    actors: Map<u64, ActorView>,
    from: ActorId,
    reason: ExitReason,
    links: Seq<LinkEntry<()>>,
    a: ActorId,
)
    requires
        links.no_duplicates(),
    ensures
        links.filter_map(entry_effect(actors, from, reason)).filter(addressed_to(a)) == (if holds(links, a) {
            effect_seq(signal_effect(actors[a.0], a, from, reason))
        } else {
            Seq::empty()
        }),
        reason.spec_is_abnormal() || actors[a.0].trap_exit ==> effect_seq(signal_effect(actors[a.0], a, from, reason)).len() == 1,
    decreases links.len(),
{
    let g = entry_effect(actors, from, reason);
    let p = addressed_to(a);
    let v = actors[a.0];
    if reason.spec_is_abnormal() {
        crate::link::law_abnormal_exit_reaches_peer(v.trap_exit, v.linked_reason, from, reason);
    }
    if links.len() == 0 {
        assert(links.filter_map(g) =~= Seq::<ActorEffect>::empty());
        assert(Seq::<ActorEffect>::empty().filter(p) =~= Seq::<ActorEffect>::empty()) by {
            reveal(Seq::filter);
        }
        assert(!holds(links, a));
    } else {
        let d = links.drop_last();
        let x = links.last();
        assert forall|i: int, j: int| 0 <= i < d.len() && 0 <= j < d.len() && i != j implies d[i] != d[j] by {
            assert(d[i] == links[i] && d[j] == links[j]);
        }
        law_exit_signal_reaches_linked_actor_once(actors, from, reason, d, a);
        assert(links =~= d.push(x));
        lemma_holds_push(d, x, a);
        match g(x) {
            Some(e) => {
                assert(links.filter_map(g) =~= d.filter_map(g).push(e));
                d.filter_map(g).lemma_filter_push(e, p);
                if x.peer_id == a {
                    assert(p(e));
                    assert(Seq::<ActorEffect>::empty().push(e) =~= seq![e]);
                } else {
                    assert(!p(e));
                }
            },
            None => {
                assert(links.filter_map(g) =~= d.filter_map(g));
            },
        }
    }
}

/// A normal exit reaches only the linked actors that trap exits, as an
/// `Exit` message.
pub proof fn law_normal_exit_reaches_only_trapping_peers(
    actors: Map<u64, ActorView>,
    own: ActorId,
    links: Seq<LinkEntry<()>>,
    e: ActorEffect,
)
    requires
        links.filter_map(entry_effect(actors, own, ExitReason::Normal)).contains(e),
    ensures
        exists|k: int| 0 <= k < links.len() && e == ActorEffect::DeliverExit(
            links[k].peer_id,
            Exit { from: own, reason: ExitReason::Normal },
        ) && (#[trigger] actors[links[k].peer_id.0]).trap_exit,
{
    let f = entry_effect(actors, own, ExitReason::Normal);
    crate::seqs::lemma_filter_map_contains_iff(links, f, e);
    let k = choose|k: int| 0 <= k < links.len() && #[trigger] f(links[k]) == Some(e);
    assert(actors[links[k].peer_id.0].trap_exit);
}

/// Once an actor's exit has been signalled, no actor holds a link to it.
pub proof fn law_exited_actor_is_unlinked(t: &ActorTable, own: ActorId, reason: ExitReason, x: u64)
    requires
        t.wf(),
        t.alive(own),
        after_propagate(t.actors(), own, reason).contains_key(x),
    ensures
        !holds(after_propagate(t.actors(), own, reason)[x].links, own),
{
    let o = t.actors()[own.0];
    let v = t.actors()[x];
    if x != own.0 {
        if holds(o.links, ActorId(x)) {
            lemma_holds_without(v.links, own, own);
        } else if holds(v.links, own) {
            assert(t.linked(ActorId(x), own));
            assert(t.alive(ActorId(x))) by {
                if v.exit is Some {
                    assert(v.links.len() == 0);
                }
            }
            assert(t.linked(own, ActorId(x)));
        }
    }
}

/// After `unlink`, neither actor holds the other.
pub proof fn law_unlink_separates(own_links: Seq<LinkEntry<()>>, target_links: Seq<LinkEntry<()>>, own: ActorId, target: ActorId)
    ensures
        !holds(own_links.filter(entry_not_for::<()>(target)), target),
        !holds(target_links.filter(entry_not_for::<()>(own)), own),
{
    lemma_holds_without(own_links, target, target);
    lemma_holds_without(target_links, own, own);
}

/// A cancelled monitor delivers no `Down`.
pub proof fn law_demonitored_gets_no_down(
    ms: Seq<(MonitorRef, ActorId, ActorId)>,
    watcher: ActorId,
    r: MonitorRef,
    a: ActorId,
    reason: ExitReason,
)
    ensures
        !ms.filter(other_monitor(watcher, r)).filter_map(down_for(a, reason)).contains(
            ActorEffect::DeliverDown(watcher, Down { monitor_ref: r, reason }),
        ),
{
    let kept = ms.filter(other_monitor(watcher, r));
    let e = ActorEffect::DeliverDown(watcher, Down { monitor_ref: r, reason });
    crate::seqs::lemma_filter_map_contains_iff(kept, down_for(a, reason), e);
    if exists|i: int| 0 <= i < kept.len() && #[trigger] down_for(a, reason)(kept[i]) == Some(e) {
        let i = choose|i: int| 0 <= i < kept.len() && #[trigger] down_for(a, reason)(kept[i]) == Some(e);
        assert(kept.contains(kept[i]));
        lemma_filter_contains_iff(ms, other_monitor(watcher, r), kept[i]);
    }
}

/// Every monitor on an exiting actor delivers its own `Down`, carrying its
/// reference and the exit reason, to its watcher.
pub proof fn law_each_monitor_gets_its_down(ms: Seq<(MonitorRef, ActorId, ActorId)>, a: ActorId, reason: ExitReason, k: int)
    requires
        0 <= k < ms.len(),
        ms[k].2 == a,
    ensures
        ms.filter_map(down_for(a, reason)).contains(
            ActorEffect::DeliverDown(ms[k].1, Down { monitor_ref: ms[k].0, reason }),
        ),
{
    let e = ActorEffect::DeliverDown(ms[k].1, Down { monitor_ref: ms[k].0, reason });
    crate::seqs::lemma_filter_map_contains_iff(ms, down_for(a, reason), e);
    assert(down_for(a, reason)(ms[k]) == Some(e));
}

} // verus!
