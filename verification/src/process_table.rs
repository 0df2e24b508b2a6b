//! Process table: registered processes, the links between them and the
//! monitors that watch them.
//!
//! When a process is unregistered the table works out which notifications
//! its exit causes ([`SystemNotice`]) and hands each one to the sender of
//! the process it is addressed to.
use vstd::prelude::*;
use std::collections::HashMap;
use vstd::std_specs::iter::IteratorSpec;
use crate::ids::IdCounter;
use crate::monitor::MonitorRef;
use crate::pid::{ExitReason, Pid};
use crate::seqs::{
    lemma_filter_contains_iff, lemma_filter_map_contains_iff, lemma_filter_map_no_duplicates, lemma_filter_no_duplicates,
    lemma_take_full, lemma_take_succ_filter,
};
use crate::text::{concat, decimal};
use crate::registry::{self, not_owned_by, Registry};

verus! {

broadcast use vstd::std_specs::hash::group_hash_axioms;

/// Trait for sending system messages to a process.
///
/// Implemented by whatever can deliver system messages to a process's
/// mailbox.
pub trait SystemMessageSender {
    /// Send a DOWN message (from a monitored process).
    fn send_down(&self, pid: Pid, monitor_ref: MonitorRef, reason: ExitReason);

    /// Send an EXIT message (from a linked process).
    fn send_exit(&self, pid: Pid, reason: ExitReason);

    /// Kill this process (when linked process crashes and not trapping exits).
    fn kill(&self, reason: ExitReason);

    /// Check if the process is still alive.
    fn is_alive(&self) -> bool;
}

/// Entry for a registered process in the table.
pub struct ProcessEntry<S> {
    /// Sender for system messages.
    pub sender: S,
    /// Whether this process traps exits.
    pub trap_exit: bool,
}

/// A notification that a process exit causes.
#[derive(Debug, Clone, PartialEq)]
pub enum SystemNotice {
    /// Deliver an EXIT message from `from` to the trapping process `to`.
    Exit { to: Pid, from: Pid, reason: ExitReason },
    /// Kill the non-trapping process `to` with `reason`.
    Kill { to: Pid, reason: ExitReason },
    /// Deliver a DOWN message about `from` to the monitoring process `to`.
    Down { to: Pid, from: Pid, monitor_ref: MonitorRef, reason: ExitReason },
}

/// Error type for link operations.
#[derive(Debug, Clone, Copy, PartialEq, Eq)]
pub enum LinkError {
    /// Cannot link a process to itself.
    SelfLink,
    /// The specified process was not found.
    ProcessNotFound(Pid),
}

impl LinkError {
    pub open spec fn spec_text(&self) -> Seq<char> {
        match self {
            LinkError::SelfLink => "cannot link a process to itself"@,
            LinkError::ProcessNotFound(pid) => "process "@ + pid.spec_text() + " not found"@,
        }
    }

    /// The error message.
    pub fn to_string(&self) -> (s: String)
        ensures
            s@ == self.spec_text(),
    {
        match self {
            LinkError::SelfLink => "cannot link a process to itself".to_owned(),
            LinkError::ProcessNotFound(pid) => {
                let p = pid.to_string();
                let head = concat("process ", p.as_str());
                concat(head.as_str(), " not found")
            },
        }
    }
}

/// Information about a process in the table.
#[derive(Debug, Clone)]
pub struct ProcessInfo {
    /// The process ID.
    pub pid: Pid,
    /// Whether the process is trapping exits.
    pub trap_exit: bool,
    /// PIDs of linked processes.
    pub links: Vec<Pid>,
    /// Monitor refs for monitors watching this process.
    pub monitors: Vec<MonitorRef>,
    /// Whether the process is alive.
    pub alive: bool,
}

/// Table of all registered processes, their links and monitors.
pub struct ProcessTable<S> {
    /// Registered processes, by pid number.
    processes: HashMap<u64, ProcessEntry<S>>,
    /// Directed halves of the bidirectional links: `(a, b)` means `a` is linked to `b`.
    links: Vec<(Pid, Pid)>,
    /// Active monitors: (reference, monitoring pid, monitored pid).
    monitors: Vec<(MonitorRef, Pid, Pid)>,
    /// Source of monitor references.
    refs: IdCounter,
}

/// Keep link halves that do not involve `pid`.
pub open spec fn link_not_touching(pid: Pid) -> spec_fn((Pid, Pid)) -> bool {
    |p: (Pid, Pid)| p.0 != pid && p.1 != pid
}

/// Keep link halves other than `a -> b` and `b -> a`.
pub open spec fn link_not_between(a: Pid, b: Pid) -> spec_fn((Pid, Pid)) -> bool {
    |p: (Pid, Pid)| !(p == (a, b) || p == (b, a))
}

/// Keep monitors that involve `pid` neither as watcher nor as target.
pub open spec fn monitor_not_touching(pid: Pid) -> spec_fn((MonitorRef, Pid, Pid)) -> bool {
    |m: (MonitorRef, Pid, Pid)| m.1 != pid && m.2 != pid
}

/// Keep monitors whose reference is not `r`.
pub open spec fn monitor_other_ref(r: MonitorRef) -> spec_fn((MonitorRef, Pid, Pid)) -> bool {
    |m: (MonitorRef, Pid, Pid)| m.0 != r
}

/// The peers that a link half starting at `pid` points to.
pub open spec fn link_peer_of(pid: Pid) -> spec_fn((Pid, Pid)) -> Option<Pid> {
    |p: (Pid, Pid)| if p.0 == pid { Some(p.1) } else { None }
}

/// The monitor references that watch `pid`.
pub open spec fn monitor_ref_on(pid: Pid) -> spec_fn((MonitorRef, Pid, Pid)) -> Option<MonitorRef> {
    |m: (MonitorRef, Pid, Pid)| if m.2 == pid { Some(m.0) } else { None }
}

/// What the exit of `pid` with `reason` tells the process at the other end
/// of the link half `p`, if anything: a trapping peer gets an EXIT message,
/// a non-trapping peer is killed unless the exit is normal.
pub open spec fn link_notice<S>(
    procs: Map<u64, ProcessEntry<S>>,
    pid: Pid,
    reason: ExitReason,
) -> spec_fn((Pid, Pid)) -> Option<SystemNotice> {
    |p: (Pid, Pid)|
        if p.0 == pid && procs.contains_key(p.1.id) {
            if procs[p.1.id].trap_exit {
                Some(SystemNotice::Exit { to: p.1, from: pid, reason: reason })
            } else if !reason.spec_is_normal() {
                Some(
                    SystemNotice::Kill {
                        to: p.1,
                        reason: ExitReason::Linked { pid: pid, reason: Box::new(reason) },
                    },
                )
            } else {
                None
            }
        } else {
            None
        }
}

/// What the exit of `pid` with `reason` tells the watcher of monitor `m`:
/// a DOWN message when `m` watches `pid` and its watcher is registered.
pub open spec fn down_notice<S>(
    procs: Map<u64, ProcessEntry<S>>,
    pid: Pid,
    reason: ExitReason,
) -> spec_fn((MonitorRef, Pid, Pid)) -> Option<SystemNotice> {
    |m: (MonitorRef, Pid, Pid)|
        if m.2 == pid && procs.contains_key(m.1.id) {
            Some(SystemNotice::Down { to: m.1, from: pid, monitor_ref: m.0, reason: reason })
        } else {
            None
        }
}

impl<S> ProcessTable<S> {
    /// Registered processes by pid number.
    pub closed spec fn procs(&self) -> Map<u64, ProcessEntry<S>> {
        self.processes@
    }

    /// The directed link halves, in the order they were made.
    pub closed spec fn link_halves(&self) -> Seq<(Pid, Pid)> {
        self.links@
    }

    /// The active monitors, in the order they were made.
    pub closed spec fn monitor_entries(&self) -> Seq<(MonitorRef, Pid, Pid)> {
        self.monitors@
    }

    /// The number the next monitor reference will carry.
    pub closed spec fn next_ref(&self) -> u64 {
        self.refs.next
    }

    /// Whether a monitor reference is left to hand out before the counter
    /// wraps.
    pub fn has_fresh_ref(&self) -> (r: bool)
        ensures
            r == (self.next_ref() < u64::MAX),
    {
        self.refs.next < u64::MAX
    }

    /// `pid` is registered.
    pub open spec fn registered(&self, pid: Pid) -> bool {
        self.procs().contains_key(pid.id)
    }

    /// `a` and `b` are linked (as seen from `a`).
    pub open spec fn linked(&self, a: Pid, b: Pid) -> bool {
        self.link_halves().contains((a, b))
    }

    /// Links are symmetric, never from a process to itself, only between
    /// registered processes, and each half is recorded once.
    pub open spec fn links_ok(&self) -> bool {
        &&& self.link_halves().no_duplicates()
        &&& forall|a: Pid, b: Pid| #[trigger] self.linked(a, b) ==> self.linked(b, a)
        &&& forall|a: Pid, b: Pid|
            #[trigger] self.linked(a, b) ==> a != b && self.registered(a) && self.registered(b)
    }

    /// Monitors only join registered processes and every reference was
    /// issued before the next one.
    pub open spec fn monitors_ok(&self) -> bool {
        forall|i: int|
            0 <= i < self.monitor_entries().len() ==> {
                let m = #[trigger] self.monitor_entries()[i];
                &&& self.registered(m.1)
                &&& self.registered(m.2)
                &&& m.0.0 < self.next_ref()
            }
    }

    /// Well-formedness of the table.
    pub open spec fn wf(&self) -> bool {
        &&& self.links_ok()
        &&& self.monitors_ok()
    }

    /// The notifications caused by the exit of `pid` with `reason`.
    pub open spec fn spec_exit_notices(&self, pid: Pid, reason: ExitReason) -> Seq<SystemNotice> {
        self.link_halves().filter_map(link_notice(self.procs(), pid, reason))
            + self.monitor_entries().filter_map(down_notice(self.procs(), pid, reason))
    }

    /// An empty table.
    pub fn new() -> (t: ProcessTable<S>)
        ensures
            t.wf(),
            t.procs() == Map::<u64, ProcessEntry<S>>::empty(),
            t.link_halves() == Seq::<(Pid, Pid)>::empty(),
            t.monitor_entries() == Seq::<(MonitorRef, Pid, Pid)>::empty(),
            t.next_ref() == 1,
    {
        ProcessTable {
            processes: HashMap::new(),
            links: Vec::new(),
            monitors: Vec::new(),
            refs: IdCounter::new(),
        }
    }

    /// The notifications caused by the exit of `pid` with `reason`: one per
    /// linked process (EXIT when it traps exits, a kill with a `Linked`
    /// reason when it does not and the exit is abnormal), then one DOWN per
    /// monitor watching `pid`.
    pub fn exit_notices(&self, pid: Pid, reason: &ExitReason) -> (r: Vec<SystemNotice>)
        ensures
            r@ == self.spec_exit_notices(pid, *reason),
    {
        let mut out: Vec<SystemNotice> = Vec::new();
        let ghost f = link_notice(self.procs(), pid, *reason);
        let mut i: usize = 0;
        while i < self.links.len()
            invariant
                i <= self.links.len(),
                f == link_notice(self.procs(), pid, *reason),
                out@ == self.links@.take(i as int).filter_map(f),
            decreases self.links.len() - i,
        {
            let (a, b) = self.links[i];
            proof {
                self.links@.lemma_filter_map_take_succ(f, i as int);
            }
            if a == pid {
                match self.processes.get(&b.id) {
                    Some(entry) => {
                        if entry.trap_exit {
                            out.push(SystemNotice::Exit { to: b, from: pid, reason: reason.duplicate() });
                        } else if !reason.is_normal() {
                            out.push(
                                SystemNotice::Kill {
                                    to: b,
                                    reason: ExitReason::Linked { pid, reason: Box::new(reason.duplicate()) },
                                },
                            );
                        }
                    },
                    None => {},
                }
            }
            i = i + 1;
        }
        proof {
            lemma_take_full(self.links@);
        }
        let ghost g = down_notice(self.procs(), pid, *reason);
        let mut downs: Vec<SystemNotice> = Vec::new();
        let mut j: usize = 0;
        while j < self.monitors.len()
            invariant
                j <= self.monitors.len(),
                g == down_notice(self.procs(), pid, *reason),
                downs@ == self.monitors@.take(j as int).filter_map(g),
            decreases self.monitors.len() - j,
        {
            let (r, watcher, target) = self.monitors[j];
            proof {
                self.monitors@.lemma_filter_map_take_succ(g, j as int);
            }
            if target == pid && self.processes.contains_key(&watcher.id) {
                downs.push(SystemNotice::Down { to: watcher, from: pid, monitor_ref: r, reason: reason.duplicate() });
            }
            j = j + 1;
        }
        proof {
            lemma_take_full(self.monitors@);
        }
        out.append(&mut downs);
        out
    }

    /// Link halves that do not involve `pid`.
    fn links_without(&self, pid: Pid) -> (r: Vec<(Pid, Pid)>)
        ensures
            r@ == self.links@.filter(link_not_touching(pid)),
    {
        let ghost pred = link_not_touching(pid);
        let mut out: Vec<(Pid, Pid)> = Vec::new();
        let mut i: usize = 0;
        while i < self.links.len()
            invariant
                i <= self.links.len(),
                pred == link_not_touching(pid),
                out@ == self.links@.take(i as int).filter(pred),
            decreases self.links.len() - i,
        {
            let p = self.links[i];
            proof {
                lemma_take_succ_filter(self.links@, i as int, pred);
            }
            if p.0 != pid && p.1 != pid {
                out.push(p);
            }
            i = i + 1;
        }
        proof {
            lemma_take_full(self.links@);
        }
        out
    }

    /// Link halves other than those between `a` and `b`.
    fn links_not_between(&self, a: Pid, b: Pid) -> (r: Vec<(Pid, Pid)>)
        ensures
            r@ == self.links@.filter(link_not_between(a, b)),
    {
        let ghost pred = link_not_between(a, b);
        let mut out: Vec<(Pid, Pid)> = Vec::new();
        let mut i: usize = 0;
        while i < self.links.len()
            invariant
                i <= self.links.len(),
                pred == link_not_between(a, b),
                out@ == self.links@.take(i as int).filter(pred),
            decreases self.links.len() - i,
        {
            let p = self.links[i];
            proof {
                lemma_take_succ_filter(self.links@, i as int, pred);
            }
            if !((p.0 == a && p.1 == b) || (p.0 == b && p.1 == a)) {
                out.push(p);
            }
            i = i + 1;
        }
        proof {
            lemma_take_full(self.links@);
        }
        out
    }

    /// Monitors that involve `pid` neither as watcher nor as target.
    fn monitors_without(&self, pid: Pid) -> (r: Vec<(MonitorRef, Pid, Pid)>)
        ensures
            r@ == self.monitors@.filter(monitor_not_touching(pid)),
    {
        let ghost pred = monitor_not_touching(pid);
        let mut out: Vec<(MonitorRef, Pid, Pid)> = Vec::new();
        let mut i: usize = 0;
        while i < self.monitors.len()
            invariant
                i <= self.monitors.len(),
                pred == monitor_not_touching(pid),
                out@ == self.monitors@.take(i as int).filter(pred),
            decreases self.monitors.len() - i,
        {
            let m = self.monitors[i];
            proof {
                lemma_take_succ_filter(self.monitors@, i as int, pred);
            }
            if m.1 != pid && m.2 != pid {
                out.push(m);
            }
            i = i + 1;
        }
        proof {
            lemma_take_full(self.monitors@);
        }
        out
    }

    /// Monitors whose reference is not `r`.
    fn monitors_other_than(&self, r: MonitorRef) -> (out: Vec<(MonitorRef, Pid, Pid)>)
        ensures
            out@ == self.monitors@.filter(monitor_other_ref(r)),
    {
        let ghost pred = monitor_other_ref(r);
        let mut out: Vec<(MonitorRef, Pid, Pid)> = Vec::new();
        let mut i: usize = 0;
        while i < self.monitors.len()
            invariant
                i <= self.monitors.len(),
                pred == monitor_other_ref(r),
                out@ == self.monitors@.take(i as int).filter(pred),
            decreases self.monitors.len() - i,
        {
            let m = self.monitors[i];
            proof {
                lemma_take_succ_filter(self.monitors@, i as int, pred);
            }
            if m.0 != r {
                out.push(m);
            }
            i = i + 1;
        }
        proof {
            lemma_take_full(self.monitors@);
        }
        out
    }

    /// Whether the link half `a -> b` is present.
    fn has_link_half(&self, a: Pid, b: Pid) -> (r: bool)
        ensures
            r == self.links@.contains((a, b)),
    {
        let mut i: usize = 0;
        while i < self.links.len()
            invariant
                i <= self.links.len(),
                forall|k: int| 0 <= k < i ==> self.links@[k] != (a, b),
            decreases self.links.len() - i,
        {
            let p = self.links[i];
            if p.0 == a && p.1 == b {
                assert(self.links@[i as int] == (a, b));
                return true;
            }
            i = i + 1;
        }
        false
    }
}


/// The link part of well-formedness survives when the links stay and no
/// process is dropped.
proof fn lemma_links_ok_kept<S>(old_t: &ProcessTable<S>, new_t: &ProcessTable<S>)
    requires
        old_t.links_ok(),
        new_t.link_halves() == old_t.link_halves(),
        forall|p: Pid| old_t.registered(p) ==> new_t.registered(p),
    ensures
        new_t.links_ok(),
{
    assert forall|a: Pid, b: Pid| #[trigger] new_t.linked(a, b) implies new_t.linked(b, a) by {
        assert(old_t.linked(a, b));
    }
    assert forall|a: Pid, b: Pid| #[trigger] new_t.linked(a, b) implies a != b && new_t.registered(a)
        && new_t.registered(b) by {
        assert(old_t.linked(a, b));
    }
}

/// The monitor part of well-formedness survives when the monitors stay, the
/// reference counter does not go back and no process is dropped.
proof fn lemma_monitors_ok_kept<S>(old_t: &ProcessTable<S>, new_t: &ProcessTable<S>)
    requires
        old_t.monitors_ok(),
        new_t.monitor_entries() == old_t.monitor_entries(),
        old_t.next_ref() <= new_t.next_ref(),
        forall|p: Pid| old_t.registered(p) ==> new_t.registered(p),
    ensures
        new_t.monitors_ok(),
{
    assert forall|i: int| 0 <= i < new_t.monitor_entries().len() implies {
        let m = #[trigger] new_t.monitor_entries()[i];
        &&& new_t.registered(m.1)
        &&& new_t.registered(m.2)
        &&& m.0.0 < new_t.next_ref()
    } by {
        let m = old_t.monitor_entries()[i];
        assert(old_t.registered(m.1));
        assert(old_t.registered(m.2));
    }
}

/// Register a process with the table (replacing any earlier entry for the
/// same pid). It starts out not trapping exits.
pub fn register<S>(table: &mut ProcessTable<S>, pid: Pid, sender: S)
    requires
        old(table).wf(),
    ensures
        final(table).wf(),
        final(table).procs() == old(table).procs().insert(pid.id, ProcessEntry { sender, trap_exit: false }),
        final(table).link_halves() == old(table).link_halves(),
        final(table).monitor_entries() == old(table).monitor_entries(),
        final(table).next_ref() == old(table).next_ref(),
{
    table.processes.insert(pid.id, ProcessEntry { sender, trap_exit: false });
    proof {
        assert forall|a: Pid, b: Pid| #[trigger] table.linked(a, b) implies table.linked(b, a) by {
            assert(old(table).linked(a, b));
        }
        assert forall|a: Pid, b: Pid| #[trigger] table.linked(a, b) implies a != b && table.registered(a)
            && table.registered(b) by {
            assert(old(table).linked(a, b));
        }
        lemma_monitors_ok_kept(old(table), table);
    }
}

/// The process a notice is addressed to.
pub open spec fn notice_to(n: SystemNotice) -> Pid {
    match n {
        SystemNotice::Exit { to, .. } => to,
        SystemNotice::Kill { to, .. } => to,
        SystemNotice::Down { to, .. } => to,
    }
}

/// The sender `s` was handed the notice `n`: the method of its kind was
/// called on `s` with the notice's fields. An EXIT names the process that
/// exited (`from`), a DOWN names the watched process and the monitor.
pub open spec fn handed<S: SystemMessageSender>(s: &S, n: SystemNotice) -> bool {
    match n {
        SystemNotice::Exit { from, reason, .. } => call_ensures(S::send_exit, (s, from, reason), ()),
        SystemNotice::Kill { reason, .. } => call_ensures(S::kill, (s, reason), ()),
        SystemNotice::Down { from, monitor_ref, reason, .. } => call_ensures(S::send_down, (s, from, monitor_ref, reason), ()),
    }
}

/// Every notice of `notices` addressed to a process of `procs` was handed
/// to that process's sender.
pub open spec fn all_handed<S: SystemMessageSender>(procs: Map<u64, ProcessEntry<S>>, notices: Seq<SystemNotice>) -> bool {
    forall|i: int| 0 <= i < notices.len() && procs.contains_key(notice_to(notices[i]).id)
        ==> handed(&procs[notice_to(#[trigger] notices[i]).id].sender, notices[i])
}

/// Call `send_exit(from, reason)` on `s`.
fn hand_exit<S: SystemMessageSender>(s: &S, from: Pid, reason: ExitReason)
    ensures
        call_ensures(S::send_exit, (s, from, reason), ()),
{
    let send = S::send_exit;
    send(s, from, reason)
}

/// Call `kill(reason)` on `s`.
fn hand_kill<S: SystemMessageSender>(s: &S, reason: ExitReason)
    ensures
        call_ensures(S::kill, (s, reason), ()),
{
    let kill = S::kill;
    kill(s, reason)
}

/// Call `send_down(from, monitor_ref, reason)` on `s`.
fn hand_down<S: SystemMessageSender>(s: &S, from: Pid, monitor_ref: MonitorRef, reason: ExitReason)
    ensures
        call_ensures(S::send_down, (s, from, monitor_ref, reason), ()),
{
    let send = S::send_down;
    send(s, from, monitor_ref, reason)
}

/// Hand every notice to the sender of the process it is addressed to:
/// an EXIT becomes `send_exit(from, reason)`, a kill `kill(reason)` and a
/// DOWN `send_down(from, monitor_ref, reason)`, on the addressee's sender.
/// Notices to processes that are not registered are dropped.
pub fn deliver<S: SystemMessageSender>(table: &ProcessTable<S>, notices: &Vec<SystemNotice>)
    ensures
        all_handed(table.procs(), notices@),
{
    let mut i: usize = 0;
    while i < notices.len()
        invariant
            i <= notices.len(),
            forall|j: int| 0 <= j < i && table.procs().contains_key(notice_to(notices@[j]).id)
                ==> handed(&table.procs()[notice_to(#[trigger] notices@[j]).id].sender, notices@[j]),
        decreases notices.len() - i,
    {
        match &notices[i] {
            SystemNotice::Exit { to, from, reason } => {
                match table.processes.get(&to.id) {
                    Some(entry) => hand_exit(&entry.sender, *from, reason.duplicate()),
                    None => {},
                }
            },
            SystemNotice::Kill { to, reason } => {
                match table.processes.get(&to.id) {
                    Some(entry) => hand_kill(&entry.sender, reason.duplicate()),
                    None => {},
                }
            },
            SystemNotice::Down { to, from, monitor_ref, reason } => {
                match table.processes.get(&to.id) {
                    Some(entry) => hand_down(&entry.sender, *from, *monitor_ref, reason.duplicate()),
                    None => {},
                }
            },
        }
        i = i + 1;
    }
}

/// Notify linked and monitoring processes of the exit of `pid`, and return
/// what was sent.
pub fn notify_exit<S: SystemMessageSender>(table: &ProcessTable<S>, pid: Pid, reason: &ExitReason) -> (r: Vec<SystemNotice>)
    ensures
        r@ == table.spec_exit_notices(pid, *reason),
        all_handed(table.procs(), r@),
{
    let notices = table.exit_notices(pid, reason);
    deliver(table, &notices);
    notices
}

/// Unregister a process from the table: notify its links and monitors of
/// the exit, then drop the process, every link that involves it and every
/// monitor it holds or is watched by.
pub fn unregister<S: SystemMessageSender>(table: &mut ProcessTable<S>, pid: Pid, reason: ExitReason) -> (notices: Vec<SystemNotice>)
    requires
        old(table).wf(),
    ensures
        final(table).wf(),
        notices@ == old(table).spec_exit_notices(pid, reason),
        all_handed(old(table).procs(), notices@),
        final(table).procs() == old(table).procs().remove(pid.id),
        final(table).link_halves() == old(table).link_halves().filter(link_not_touching(pid)),
        final(table).monitor_entries() == old(table).monitor_entries().filter(monitor_not_touching(pid)),
        final(table).next_ref() == old(table).next_ref(),
{
    let notices = notify_exit(table, pid, &reason);
    let links = table.links_without(pid);
    let monitors = table.monitors_without(pid);
    table.processes.remove(&pid.id);
    table.links = links;
    table.monitors = monitors;
    proof {
        let ol = old(table).link_halves();
        let om = old(table).monitor_entries();
        lemma_filter_no_duplicates(ol, link_not_touching(pid));
        assert forall|a: Pid, b: Pid| #[trigger] table.linked(a, b) implies table.linked(b, a) by {
            lemma_filter_contains_iff(ol, link_not_touching(pid), (a, b));
            lemma_filter_contains_iff(ol, link_not_touching(pid), (b, a));
            assert(old(table).linked(a, b));
        }
        assert forall|a: Pid, b: Pid| #[trigger] table.linked(a, b) implies a != b && table.registered(a)
            && table.registered(b) by {
            lemma_filter_contains_iff(ol, link_not_touching(pid), (a, b));
            assert(old(table).linked(a, b));
        }
        assert forall|i: int| 0 <= i < table.monitor_entries().len() implies {
            let m = #[trigger] table.monitor_entries()[i];
            &&& table.registered(m.1)
            &&& table.registered(m.2)
            &&& m.0.0 < table.next_ref()
        } by {
            let m = table.monitor_entries()[i];
            assert(om.filter(monitor_not_touching(pid)).contains(m));
            lemma_filter_contains_iff(om, monitor_not_touching(pid), m);
            let k = choose|k: int| 0 <= k < om.len() && om[k] == m;
            assert(old(table).monitor_entries()[k] == m);
        }
    }
    notices
}

/// Create a bidirectional link between two processes.
///
/// Fails with `SelfLink` when both are the same process and with
/// `ProcessNotFound` (naming `pid_a` first) when one is not registered.
pub fn link<S>(table: &mut ProcessTable<S>, pid_a: Pid, pid_b: Pid) -> (r: Result<(), LinkError>)
    requires
        old(table).wf(),
    ensures
        final(table).wf(),
        pid_a == pid_b ==> r == Err::<(), LinkError>(LinkError::SelfLink),
        pid_a != pid_b && !old(table).registered(pid_a) ==> r == Err::<(), LinkError>(LinkError::ProcessNotFound(pid_a)),
        pid_a != pid_b && old(table).registered(pid_a) && !old(table).registered(pid_b) ==> r == Err::<(), LinkError>(
            LinkError::ProcessNotFound(pid_b)),
        r is Err ==> final(table).link_halves() == old(table).link_halves(),
        r is Ok <==> (pid_a != pid_b && old(table).registered(pid_a) && old(table).registered(pid_b)),
        r is Ok ==> final(table).link_halves() == ({
            let l1 = if old(table).linked(pid_a, pid_b) { old(table).link_halves() } else { old(table).link_halves().push((pid_a, pid_b)) };
            if l1.contains((pid_b, pid_a)) { l1 } else { l1.push((pid_b, pid_a)) }
        }),
        r is Ok ==> forall|x: Pid, y: Pid| #[trigger] final(table).linked(x, y) <==> (old(table).linked(x, y) || (x == pid_a && y == pid_b)
            || (x == pid_b && y == pid_a)),
        final(table).procs() == old(table).procs(),
        final(table).monitor_entries() == old(table).monitor_entries(),
        final(table).next_ref() == old(table).next_ref(),
{
    if pid_a == pid_b {
        return Err(LinkError::SelfLink);
    }
    if !table.processes.contains_key(&pid_a.id) {
        return Err(LinkError::ProcessNotFound(pid_a));
    }
    if !table.processes.contains_key(&pid_b.id) {
        return Err(LinkError::ProcessNotFound(pid_b));
    }
    if !table.has_link_half(pid_a, pid_b) {
        table.links.push((pid_a, pid_b));
    }
    let ghost l1 = table.links@;
    if !table.has_link_half(pid_b, pid_a) {
        table.links.push((pid_b, pid_a));
    }
    proof {
        assert forall|x: Pid, y: Pid| #[trigger] table.linked(x, y) <==> (old(table).linked(x, y) || (x == pid_a && y
            == pid_b) || (x == pid_b && y == pid_a)) by {
            if table.linked(x, y) {
                let k = choose|k: int| 0 <= k < table.links@.len() && table.links@[k] == (x, y);
                if k < l1.len() {
                    assert(l1[k] == (x, y));
                    if k < old(table).links@.len() {
                        assert(old(table).links@[k] == (x, y));
                    }
                }
            }
            if old(table).linked(x, y) {
                let k = choose|k: int| 0 <= k < old(table).links@.len() && old(table).links@[k] == (x, y);
                assert(l1[k] == (x, y));
                assert(table.links@[k] == (x, y));
            }
            if x == pid_a && y == pid_b {
                if l1.contains((x, y)) {
                    let k = choose|k: int| 0 <= k < l1.len() && l1[k] == (x, y);
                    assert(table.links@[k] == (x, y));
                } else {
                    assert(l1[l1.len() - 1] == (x, y));
                }
            }
            if x == pid_b && y == pid_a {
                if !l1.contains((x, y)) {
                    assert(table.links@[table.links@.len() - 1] == (x, y));
                }
            }
        }
    }
    proof {
        assert forall|a: Pid, b: Pid| #[trigger] table.linked(a, b) implies table.linked(b, a) by {
            assert(table.linked(a, b) <==> (old(table).linked(a, b) || (a == pid_a && b == pid_b) || (a == pid_b && b == pid_a)));
            assert(table.linked(b, a) <==> (old(table).linked(b, a) || (b == pid_a && a == pid_b) || (b == pid_b && a == pid_a)));
            if old(table).linked(a, b) {
                assert(old(table).linked(b, a));
            }
        }
        assert forall|a: Pid, b: Pid| #[trigger] table.linked(a, b) implies a != b && table.registered(a)
            && table.registered(b) by {
            assert(table.linked(a, b) <==> (old(table).linked(a, b) || (a == pid_a && b == pid_b) || (a == pid_b && b == pid_a)));
            if old(table).linked(a, b) {
                assert(old(table).registered(a));
            }
        }
        lemma_monitors_ok_kept(old(table), table);
    }
    Ok(())
}

/// Remove a bidirectional link between two processes.
pub fn unlink<S>(table: &mut ProcessTable<S>, pid_a: Pid, pid_b: Pid)
    requires
        old(table).wf(),
    ensures
        final(table).wf(),
        final(table).link_halves() == old(table).link_halves().filter(link_not_between(pid_a, pid_b)),
        !final(table).linked(pid_a, pid_b),
        !final(table).linked(pid_b, pid_a),
        final(table).procs() == old(table).procs(),
        final(table).monitor_entries() == old(table).monitor_entries(),
        final(table).next_ref() == old(table).next_ref(),
{
    let links = table.links_not_between(pid_a, pid_b);
    table.links = links;
    proof {
        let ol = old(table).link_halves();
        let p = link_not_between(pid_a, pid_b);
        lemma_filter_no_duplicates(ol, p);
        lemma_filter_contains_iff(ol, p, (pid_a, pid_b));
        lemma_filter_contains_iff(ol, p, (pid_b, pid_a));
        assert forall|a: Pid, b: Pid| #[trigger] table.linked(a, b) implies table.linked(b, a) by {
            lemma_filter_contains_iff(ol, p, (a, b));
            lemma_filter_contains_iff(ol, p, (b, a));
            assert(old(table).linked(a, b));
        }
        assert forall|a: Pid, b: Pid| #[trigger] table.linked(a, b) implies a != b && table.registered(a)
            && table.registered(b) by {
            lemma_filter_contains_iff(ol, p, (a, b));
            assert(old(table).linked(a, b));
        }
        lemma_monitors_ok_kept(old(table), table);
    }
}


/// Unregister a process as `unregister` does, and also drop every name
/// bound to it in `names`.
pub fn unregister_with_names<S: SystemMessageSender, T>(
    table: &mut ProcessTable<S>,
    names: &mut Registry<(Option<Pid>, T)>,
    pid: Pid,
    reason: ExitReason,
) -> (notices: Vec<SystemNotice>)
    requires
        old(table).wf(),
        old(names).wf(),
    ensures
        final(table).wf(),
        final(names).wf(),
        notices@ == old(table).spec_exit_notices(pid, reason),
        all_handed(old(table).procs(), notices@),
        final(table).procs() == old(table).procs().remove(pid.id),
        final(table).link_halves() == old(table).link_halves().filter(link_not_touching(pid)),
        final(table).monitor_entries() == old(table).monitor_entries().filter(monitor_not_touching(pid)),
        final(table).next_ref() == old(table).next_ref(),
        final(names).view() == old(names).view().filter(not_owned_by::<T>(pid)),
{
    let notices = unregister(table, pid, reason);
    registry::unregister_pid(names, pid);
    notices
}

/// The notices `monitor` sends at once: a DOWN (reason `Normal`) to the
/// watcher when it is registered and the watched process is not.
pub open spec fn monitor_notices<S>(t: ProcessTable<S>, monitoring_pid: Pid, monitored_pid: Pid, m: MonitorRef) -> Seq<SystemNotice> {
    if t.registered(monitoring_pid) && !t.registered(monitored_pid) {
        seq![SystemNotice::Down { to: monitoring_pid, from: monitored_pid, monitor_ref: m, reason: ExitReason::Normal }]
    } else {
        Seq::empty()
    }
}

/// Monitor a process, and return the notices sent at once.
///
/// Fails with `ProcessNotFound(monitoring_pid)` when the watcher is not
/// registered, and sends nothing then. When the watched process is not
/// registered, a fresh reference is issued and a DOWN message (reason
/// `Normal`) is sent to the watcher at once; otherwise the monitor is
/// recorded and nothing is sent now.
pub fn monitor<S: SystemMessageSender>(table: &mut ProcessTable<S>, monitoring_pid: Pid, monitored_pid: Pid) -> (out: (Result<MonitorRef, LinkError>, Vec<SystemNotice>))
    requires
        old(table).wf(),
        old(table).next_ref() < u64::MAX,
    ensures
        out.1@ == monitor_notices(*old(table), monitoring_pid, monitored_pid, MonitorRef(old(table).next_ref())),
        all_handed(old(table).procs(), out.1@),
        final(table).wf(),
        final(table).procs() == old(table).procs(),
        final(table).link_halves() == old(table).link_halves(),
        !old(table).registered(monitoring_pid) ==> out.0 == Err::<MonitorRef, LinkError>(LinkError::ProcessNotFound(monitoring_pid))
            && final(table).monitor_entries() == old(table).monitor_entries()
            && final(table).next_ref() == old(table).next_ref(),
        old(table).registered(monitoring_pid) ==> (out.0 matches Ok(m) && m.0 == old(table).next_ref()
            && final(table).next_ref() == old(table).next_ref() + 1),
        old(table).registered(monitoring_pid) && !old(table).registered(monitored_pid)
            ==> final(table).monitor_entries() == old(table).monitor_entries(),
        old(table).registered(monitoring_pid) && old(table).registered(monitored_pid)
            ==> final(table).monitor_entries() == old(table).monitor_entries().push((out.0->Ok_0, monitoring_pid, monitored_pid)),
        out.0 matches Ok(m) ==> forall|i: int| 0 <= i < old(table).monitor_entries().len()
            ==> #[trigger] old(table).monitor_entries()[i].0 != m,
{
    if !table.processes.contains_key(&monitoring_pid.id) {
        return (Err(LinkError::ProcessNotFound(monitoring_pid)), Vec::new());
    }
    let monitor_ref = MonitorRef::next(&mut table.refs);
    proof {
        assert forall|i: int| 0 <= i < old(table).monitor_entries().len()
            implies #[trigger] old(table).monitor_entries()[i].0 != monitor_ref by {
            assert(old(table).monitors_ok());
        }
    }
    if !table.processes.contains_key(&monitored_pid.id) {
        let mut notices: Vec<SystemNotice> = Vec::new();
        notices.push(SystemNotice::Down { to: monitoring_pid, from: monitored_pid, monitor_ref, reason: ExitReason::Normal });
        deliver(table, &notices);
        proof {
            lemma_monitors_ok_kept(old(table), table);
            lemma_links_ok_kept(old(table), table);
            assert(notices@ =~= monitor_notices(*old(table), monitoring_pid, monitored_pid, monitor_ref));
        }
        return (Ok(monitor_ref), notices);
    }
    table.monitors.push((monitor_ref, monitoring_pid, monitored_pid));
    proof {
        lemma_links_ok_kept(old(table), table);
        assert forall|i: int| 0 <= i < table.monitor_entries().len() implies {
            let m = #[trigger] table.monitor_entries()[i];
            &&& table.registered(m.1)
            &&& table.registered(m.2)
            &&& m.0.0 < table.next_ref()
        } by {
            if i < old(table).monitor_entries().len() {
                assert(table.monitor_entries()[i] == old(table).monitor_entries()[i]);
            }
        }
    }
    let notices: Vec<SystemNotice> = Vec::new();
    proof {
        assert(notices@ =~= monitor_notices(*old(table), monitoring_pid, monitored_pid, monitor_ref));
    }
    (Ok(monitor_ref), notices)
}

/// Stop monitoring: drop the monitor with reference `monitor_ref`.
pub fn demonitor<S>(table: &mut ProcessTable<S>, monitor_ref: MonitorRef)
    requires
        old(table).wf(),
    ensures
        final(table).wf(),
        final(table).monitor_entries() == old(table).monitor_entries().filter(monitor_other_ref(monitor_ref)),
        final(table).procs() == old(table).procs(),
        final(table).link_halves() == old(table).link_halves(),
        final(table).next_ref() == old(table).next_ref(),
{
    let monitors = table.monitors_other_than(monitor_ref);
    table.monitors = monitors;
    proof {
        let om = old(table).monitor_entries();
        lemma_links_ok_kept(old(table), table);
        assert forall|i: int| 0 <= i < table.monitor_entries().len() implies {
            let m = #[trigger] table.monitor_entries()[i];
            &&& table.registered(m.1)
            &&& table.registered(m.2)
            &&& m.0.0 < table.next_ref()
        } by {
            let m = table.monitor_entries()[i];
            assert(om.filter(monitor_other_ref(monitor_ref)).contains(m));
            lemma_filter_contains_iff(om, monitor_other_ref(monitor_ref), m);
            let k = choose|k: int| 0 <= k < om.len() && om[k] == m;
            assert(old(table).monitor_entries()[k] == m);
        }
    }
}

/// Set whether a registered process traps exits. Unregistered pids are ignored.
pub fn set_trap_exit<S>(table: &mut ProcessTable<S>, pid: Pid, trap: bool)
    requires
        old(table).wf(),
    ensures
        final(table).wf(),
        old(table).registered(pid) ==> final(table).procs() == old(table).procs().insert(
            pid.id,
            ProcessEntry { sender: old(table).procs()[pid.id].sender, trap_exit: trap },
        ),
        !old(table).registered(pid) ==> final(table).procs() == old(table).procs(),
        final(table).link_halves() == old(table).link_halves(),
        final(table).monitor_entries() == old(table).monitor_entries(),
        final(table).next_ref() == old(table).next_ref(),
{
    match table.processes.remove(&pid.id) {
        Some(entry) => {
            table.processes.insert(pid.id, ProcessEntry { sender: entry.sender, trap_exit: trap });
            proof {
                assert(table.procs() =~= old(table).procs().insert(
                    pid.id,
                    ProcessEntry { sender: old(table).procs()[pid.id].sender, trap_exit: trap },
                ));
            }
        },
        None => {
            proof {
                assert(table.procs() =~= old(table).procs());
            }
        },
    }
    proof {
        assert forall|a: Pid, b: Pid| #[trigger] table.linked(a, b) implies table.linked(b, a) by {
            assert(old(table).linked(a, b));
        }
        assert forall|a: Pid, b: Pid| #[trigger] table.linked(a, b) implies a != b && table.registered(a)
            && table.registered(b) by {
            assert(old(table).linked(a, b));
        }
        lemma_monitors_ok_kept(old(table), table);
    }
}

/// Check if a process is trapping exits (false when it is not registered).
pub fn is_trapping_exit<S>(table: &ProcessTable<S>, pid: Pid) -> (r: bool)
    ensures
        r == (table.registered(pid) && table.procs()[pid.id].trap_exit),
{
    match table.processes.get(&pid.id) {
        Some(entry) => entry.trap_exit,
        None => false,
    }
}

/// Check if a process is alive: registered, and alive by its own sender's
/// account.
pub fn is_alive<S: SystemMessageSender>(table: &ProcessTable<S>, pid: Pid) -> (r: bool)
    ensures
        r ==> table.registered(pid),
        table.registered(pid) ==> call_ensures(S::is_alive, (&table.procs()[pid.id].sender,), r),
{
    match table.processes.get(&pid.id) {
        Some(entry) => {
            let alive = S::is_alive;
            alive(&entry.sender)
        },
        None => false,
    }
}

/// Get all processes linked to a given process, in the order the links were made.
pub fn get_links<S>(table: &ProcessTable<S>, pid: Pid) -> (r: Vec<Pid>)
    ensures
        r@ == table.link_halves().filter_map(link_peer_of(pid)),
{
    let ghost f = link_peer_of(pid);
    let mut out: Vec<Pid> = Vec::new();
    let mut i: usize = 0;
    while i < table.links.len()
        invariant
            i <= table.links.len(),
            f == link_peer_of(pid),
            out@ == table.links@.take(i as int).filter_map(f),
        decreases table.links.len() - i,
    {
        let (a, b) = table.links[i];
        proof {
            table.links@.lemma_filter_map_take_succ(f, i as int);
        }
        if a == pid {
            out.push(b);
        }
        i = i + 1;
    }
    proof {
        lemma_take_full(table.links@);
    }
    out
}

/// Get the monitor refs of the monitors watching `pid`, in the order they were made.
pub fn get_monitors<S>(table: &ProcessTable<S>, pid: Pid) -> (r: Vec<MonitorRef>)
    ensures
        r@ == table.monitor_entries().filter_map(monitor_ref_on(pid)),
{
    let ghost f = monitor_ref_on(pid);
    let mut out: Vec<MonitorRef> = Vec::new();
    let mut i: usize = 0;
    while i < table.monitors.len()
        invariant
            i <= table.monitors.len(),
            f == monitor_ref_on(pid),
            out@ == table.monitors@.take(i as int).filter_map(f),
        decreases table.monitors.len() - i,
    {
        let (r, _watcher, target) = table.monitors[i];
        proof {
            table.monitors@.lemma_filter_map_take_succ(f, i as int);
        }
        if target == pid {
            out.push(r);
        }
        i = i + 1;
    }
    proof {
        lemma_take_full(table.monitors@);
    }
    out
}

/// Get detailed information about a process, or `None` when it is not registered.
pub fn process_info<S: SystemMessageSender>(table: &ProcessTable<S>, pid: Pid) -> (r: Option<ProcessInfo>)
    ensures
        r is None <==> !table.registered(pid),
        r matches Some(info) ==> {
            &&& info.pid == pid
            &&& info.trap_exit == table.procs()[pid.id].trap_exit
            &&& info.links@ == table.link_halves().filter_map(link_peer_of(pid))
            &&& info.monitors@ == table.monitor_entries().filter_map(monitor_ref_on(pid))
        },
{
    match table.processes.get(&pid.id) {
        None => None,
        Some(entry) => {
            let links = get_links(table, pid);
            let monitors = get_monitors(table, pid);
            Some(ProcessInfo { pid, trap_exit: entry.trap_exit, links, monitors, alive: entry.sender.is_alive() })
        },
    }
}

/// Get all registered process PIDs (each once, in no particular order).
pub fn all_processes<S>(table: &ProcessTable<S>) -> (r: Vec<Pid>)
    ensures
        r@.len() == table.procs().dom().len(),
        forall|p: Pid| r@.contains(p) <==> table.registered(p),
        forall|i: int, j: int| 0 <= i < j < r@.len() ==> r@[i] != r@[j],
{
    let mut out: Vec<Pid> = Vec::new();
    let ghost all = table.processes.keys().remaining();
    for k in it: table.processes.keys()
        invariant
            it.seq() == all,
            out.len() == it.index(),
            forall|j: int| 0 <= j < out.len() ==> out@[j] == (Pid { id: *all[j] }),
    {
        out.push(Pid { id: *k });
    }
    proof {
        assert(all.unref().to_set() == table.procs().dom());
        assert(all.no_duplicates());
        assert forall|p: Pid| out@.contains(p) <==> table.registered(p) by {
            if out@.contains(p) {
                let j = choose|j: int| 0 <= j < out@.len() && out@[j] == p;
                assert(all.unref()[j] == p.id);
                assert(all.unref().contains(p.id));
            }
            if table.registered(p) {
                assert(all.unref().to_set().contains(p.id));
                let j = choose|j: int| 0 <= j < all.unref().len() && all.unref()[j] == p.id;
                assert(out@[j] == p);
            }
        }
        assert forall|i: int, j: int| 0 <= i < j < out@.len() implies out@[i] != out@[j] by {
            assert(*all[i] != *all[j]);
        }
    }
    out
}

/// Get the count of registered processes.
pub fn process_count<S>(table: &ProcessTable<S>) -> (r: usize)
    ensures
        r == table.procs().dom().len(),
{
    table.processes.len()
}

/// Clear the process table: no processes, links or monitors remain.
pub fn clear<S>(table: &mut ProcessTable<S>)
    requires
        old(table).wf(),
    ensures
        final(table).wf(),
        final(table).procs() == Map::<u64, ProcessEntry<S>>::empty(),
        final(table).link_halves() == Seq::<(Pid, Pid)>::empty(),
        final(table).monitor_entries() == Seq::<(MonitorRef, Pid, Pid)>::empty(),
        final(table).next_ref() == old(table).next_ref(),
{
    table.processes.clear();
    table.links.clear();
    table.monitors.clear();
}

/// Links are mutual, never from a process to itself, and join registered
/// processes only.
pub proof fn law_links_are_mutual<S>(t: &ProcessTable<S>, a: Pid, b: Pid)
    requires
        t.wf(),
        t.linked(a, b),
    ensures
        t.linked(b, a),
        a != b,
        t.registered(a),
        t.registered(b),
{
}

/// `get_links(p)` names each linked process once, never `p` itself, only
/// registered processes, and `q` is in `get_links(p)` exactly when `p` is
/// in `get_links(q)`.
pub proof fn law_get_links_are_mutual_and_distinct<S>(t: &ProcessTable<S>, p: Pid, q: Pid)
    requires
        t.wf(),
    ensures
        t.link_halves().filter_map(link_peer_of(p)).no_duplicates(),
        t.link_halves().filter_map(link_peer_of(p)).contains(q) <==> t.link_halves().filter_map(link_peer_of(q)).contains(p),
        !t.link_halves().filter_map(link_peer_of(p)).contains(p),
        t.link_halves().filter_map(link_peer_of(p)).contains(q) ==> t.registered(p) && t.registered(q),
{
    let h = t.link_halves();
    let fp = link_peer_of(p);
    let fq = link_peer_of(q);
    assert forall|x: (Pid, Pid), y: (Pid, Pid)| #[trigger] fp(x) is Some && #[trigger] fp(y) == fp(x) implies x == y by {}
    lemma_filter_map_no_duplicates(h, fp);
    lemma_filter_map_contains_iff(h, fp, q);
    lemma_filter_map_contains_iff(h, fq, p);
    lemma_filter_map_contains_iff(h, fp, p);
    if h.filter_map(fp).contains(q) {
        let i = choose|i: int| 0 <= i < h.len() && #[trigger] fp(h[i]) == Some(q);
        assert(h[i] == (p, q));
        assert(t.linked(p, q));
        assert(t.linked(q, p));
        let j = choose|j: int| 0 <= j < h.len() && h[j] == (q, p);
        assert(fq(h[j]) == Some(p));
    }
    if h.filter_map(fq).contains(p) {
        let i = choose|i: int| 0 <= i < h.len() && #[trigger] fq(h[i]) == Some(p);
        assert(h[i] == (q, p));
        assert(t.linked(q, p));
        assert(t.linked(p, q));
        let j = choose|j: int| 0 <= j < h.len() && h[j] == (p, q);
        assert(fp(h[j]) == Some(q));
    }
    if h.filter_map(fp).contains(p) {
        let i = choose|i: int| 0 <= i < h.len() && #[trigger] fp(h[i]) == Some(p);
        assert(h[i] == (p, p));
        assert(t.linked(p, p));
    }
}

/// A normal exit (`Normal` or `Shutdown`) tells a linked process that does
/// not trap exits nothing.
pub proof fn law_normal_exit_spares_non_trapping<S>(procs: Map<u64, ProcessEntry<S>>, pid: Pid, reason: ExitReason, peer: Pid)
    requires
        reason.spec_is_normal(),
        procs.contains_key(peer.id),
        !procs[peer.id].trap_exit,
    ensures
        link_notice(procs, pid, reason)((pid, peer)) is None,
{
}

/// An abnormal exit kills a linked process that does not trap exits, with
/// a `Linked` reason naming the dead process.
pub proof fn law_abnormal_exit_kills_non_trapping<S>(procs: Map<u64, ProcessEntry<S>>, pid: Pid, reason: ExitReason, peer: Pid)
    requires
        !reason.spec_is_normal(),
        procs.contains_key(peer.id),
        !procs[peer.id].trap_exit,
    ensures
        link_notice(procs, pid, reason)((pid, peer)) == Some(
            SystemNotice::Kill { to: peer, reason: ExitReason::Linked { pid, reason: Box::new(reason) } },
        ),
{
}

/// The EXIT a trapping linked process receives names the process that
/// exited: when `pid` exits with `reason` and its exit notices have been
/// handed over, the sender of every linked process that traps exits got
/// `send_exit(pid, reason)`.
pub proof fn law_exit_names_the_exited_process<S: SystemMessageSender>(t: &ProcessTable<S>, pid: Pid, reason: ExitReason, peer: Pid)
    requires
        t.wf(),
        t.linked(pid, peer),
        t.procs()[peer.id].trap_exit,
        all_handed(t.procs(), t.spec_exit_notices(pid, reason)),
    ensures
        call_ensures(S::send_exit, (&t.procs()[peer.id].sender, pid, reason), ()),
{
    let h = t.link_halves();
    let f = link_notice(t.procs(), pid, reason);
    let n = SystemNotice::Exit { to: peer, from: pid, reason };
    let k = choose|k: int| 0 <= k < h.len() && h[k] == (pid, peer);
    assert(f(h[k]) == Some(n));
    lemma_filter_map_contains_iff(h, f, n);
    let notices = t.spec_exit_notices(pid, reason);
    let links = h.filter_map(f);
    let q = choose|q: int| 0 <= q < links.len() && links[q] == n;
    assert(notices[q] == n);
    assert(notice_to(notices[q]) == peer);
}

/// The DOWN a watcher receives names the watched process, the monitor and
/// the exit reason: when `pid` exits with `reason` and its exit notices
/// have been handed over, the sender of every registered process watching
/// `pid` got `send_down(pid, monitor_ref, reason)`.
pub proof fn law_down_names_the_exited_process<S: SystemMessageSender>(
    t: &ProcessTable<S>,
    pid: Pid,
    reason: ExitReason,
    m: MonitorRef,
    watcher: Pid,
)
    requires
        t.wf(),
        t.monitor_entries().contains((m, watcher, pid)),
        all_handed(t.procs(), t.spec_exit_notices(pid, reason)),
    ensures
        call_ensures(S::send_down, (&t.procs()[watcher.id].sender, pid, m, reason), ()),
{
    let ms = t.monitor_entries();
    let g = down_notice(t.procs(), pid, reason);
    let n = SystemNotice::Down { to: watcher, from: pid, monitor_ref: m, reason };
    let k = choose|k: int| 0 <= k < ms.len() && ms[k] == (m, watcher, pid);
    assert(t.registered(watcher));
    assert(g(ms[k]) == Some(n));
    lemma_filter_map_contains_iff(ms, g, n);
    let notices = t.spec_exit_notices(pid, reason);
    let links = t.link_halves().filter_map(link_notice(t.procs(), pid, reason));
    let downs = ms.filter_map(g);
    let q = choose|q: int| 0 <= q < downs.len() && downs[q] == n;
    assert(notices[links.len() + q] == n);
    assert(notice_to(notices[links.len() + q]) == watcher);
}

/// A linked process that traps exits gets an EXIT message for every exit,
/// whatever its reason.
pub proof fn law_trapping_process_gets_exit<S>(procs: Map<u64, ProcessEntry<S>>, pid: Pid, reason: ExitReason, peer: Pid)
    requires
        procs.contains_key(peer.id),
        procs[peer.id].trap_exit,
    ensures
        link_notice(procs, pid, reason)((pid, peer)) == Some(SystemNotice::Exit { to: peer, from: pid, reason }),
{
}

/// Once a process is unregistered, no link and no monitor involves it.
pub proof fn law_unregistered_is_forgotten(
    halves: Seq<(Pid, Pid)>,
    monitors: Seq<(MonitorRef, Pid, Pid)>,
    pid: Pid,
    other: Pid,
    r: MonitorRef,
)
    ensures
        !halves.filter(link_not_touching(pid)).contains((pid, other)),
        !halves.filter(link_not_touching(pid)).contains((other, pid)),
        !monitors.filter(monitor_not_touching(pid)).contains((r, pid, other)),
        !monitors.filter(monitor_not_touching(pid)).contains((r, other, pid)),
{
    lemma_filter_contains_iff(halves, link_not_touching(pid), (pid, other));
    lemma_filter_contains_iff(halves, link_not_touching(pid), (other, pid));
    lemma_filter_contains_iff(monitors, monitor_not_touching(pid), (r, pid, other));
    lemma_filter_contains_iff(monitors, monitor_not_touching(pid), (r, other, pid));
}

/// A demonitored reference delivers no DOWN: no monitor with that
/// reference is left.
pub proof fn law_demonitor_drops_reference(monitors: Seq<(MonitorRef, Pid, Pid)>, r: MonitorRef, a: Pid, b: Pid)
    ensures
        !monitors.filter(monitor_other_ref(r)).contains((r, a, b)),
{
    lemma_filter_contains_iff(monitors, monitor_other_ref(r), (r, a, b));
}

} // verus!

