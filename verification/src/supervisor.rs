//! Supervision: restart strategies and policies, restart intensity, and the
//! state a supervisor keeps about its children.
use vstd::prelude::*;
use std::collections::HashMap;
use crate::monitor::MonitorRef;
use crate::pid::{ExitReason, Pid};
use crate::process_table::{self, ProcessTable, SystemMessageSender};
use crate::gen_server::{CallResponse, CastResponse, InfoResponse, SystemMessage};
use crate::registry::{register, Registry};
use crate::seqs::{lemma_filter_all, lemma_filter_contains_iff, lemma_take_full, lemma_take_succ_filter, texts};
use vstd::std_specs::iter::IteratorSpec;
use crate::text::concat;
use crate::time::{max_total_nanos, Span};

verus! {

broadcast use vstd::std_specs::hash::group_hash_axioms;

/// Strategy for restarting children when one fails.
#[derive(Debug, Clone, Copy, PartialEq, Eq, Structural)]
pub enum RestartStrategy {
    /// Restart only the failed child.
    OneForOne,
    /// Restart all children when one fails.
    OneForAll,
    /// Restart the failed child and all children started after it.
    RestForOne,
}

/// Policy for when a child should be restarted.
#[derive(Debug, Clone, Copy, PartialEq, Eq, Structural)]
pub enum RestartType {
    /// Always restart the child when it exits.
    Permanent,
    /// Restart only if the child exits abnormally.
    Transient,
    /// Never restart the child.
    Temporary,
}

impl Default for RestartType {
    fn default() -> (r: Self)
        ensures
            r == RestartType::Permanent,
    {
        RestartType::Permanent
    }
}

/// Child shutdown behavior.
#[derive(Debug, Clone, Copy, PartialEq, Eq, Structural)]
pub enum Shutdown {
    /// Wait indefinitely for the child to terminate.
    Infinity,
    /// Wait up to the specified duration, then force kill.
    Timeout(Span),
    /// Immediately force kill the child.
    Brutal,
}

impl Default for Shutdown {
    fn default() -> (r: Self)
        ensures
            r == Shutdown::Timeout(Span { secs: 5, nanos: 0 }),
    {
        Shutdown::Timeout(Span::from_secs(5))
    }
}

/// Type of child process.
#[derive(Debug, Clone, Copy, PartialEq, Eq, Structural)]
pub enum ChildType {
    /// A regular worker process.
    Worker,
    /// A supervisor process (for nested supervision trees).
    Supervisor,
}

impl Default for ChildType {
    fn default() -> (r: Self)
        ensures
            r == ChildType::Worker,
    {
        ChildType::Worker
    }
}

/// Whether a restart recorded at `t` still counts at `now` within a window
/// of `window`: it is less than `window` old (or lies after `now`).
pub open spec fn still_counts(now: Span, window: Span) -> spec_fn(Span) -> bool {
    |t: Span| t.total() + window.total() > now.total()
}

/// The restart times after `k` restarts granted at `now`, starting from
/// `times`: each restart first forgets the times that fell out of the
/// window, then records `now`.
pub open spec fn restarts_after(times: Seq<Span>, window: Span, now: Span, k: nat) -> Seq<Span>
    decreases k,
{
    if k == 0 {
        times
    } else {
        restarts_after(times, window, now, (k - 1) as nat).filter(still_counts(now, window)).push(now)
    }
}

/// Whether, starting from `times` and after `k` restarts granted at `now`,
/// the next restart is refused: the times still in the window, counted as
/// a `u32`, have reached `limit`.
pub open spec fn refuses_restart(times: Seq<Span>, limit: u32, window: Span, now: Span, k: nat) -> bool {
    !((restarts_after(times, window, now, k).filter(still_counts(now, window)).len() as u32) < limit)
}

/// How many restarts count after `k` restarts granted at `now`: with a
/// window longer than zero, those that counted before plus the `k` new
/// ones; with a zero window, the new ones fall out at once.
pub proof fn law_restart_budget(times: Seq<Span>, window: Span, now: Span, k: nat)
    ensures
        window.total() > 0 ==> restarts_after(times, window, now, k).filter(still_counts(now, window)).len()
            == times.filter(still_counts(now, window)).len() + k,
        window.total() == 0 ==> restarts_after(times, window, now, k).filter(still_counts(now, window)).len()
            == times.filter(still_counts(now, window)).len(),
    decreases k,
{
    let p = still_counts(now, window);
    if k > 0 {
        law_restart_budget(times, window, now, (k - 1) as nat);
        let prev = restarts_after(times, window, now, (k - 1) as nat).filter(p);
        broadcast use vstd::seq_lib::group_filter_ensures;
        assert forall|x: Span| prev.contains(x) implies p(x) by {}
        lemma_filter_all(prev, p);
        prev.lemma_filter_push(now, p);
    }
}

/// When `m` restarts are asked for at `now`, one of them is refused
/// exactly when the budget runs out among them: with a window longer than
/// zero, when the restarts still counting plus the `m` new ones exceed the
/// limit; with a zero window, when those still counting alone reach it.
pub proof fn law_restart_refused_within(times: Seq<Span>, limit: u32, window: Span, now: Span, m: nat)
    requires
        m > 0,
        times.filter(still_counts(now, window)).len() + m <= u32::MAX,
    ensures
        window.total() > 0 ==> ((exists|k: nat| k < m && #[trigger] refuses_restart(times, limit, window, now, k))
            <==> times.filter(still_counts(now, window)).len() + m > limit),
        window.total() == 0 ==> ((exists|k: nat| k < m && #[trigger] refuses_restart(times, limit, window, now, k))
            <==> times.filter(still_counts(now, window)).len() >= limit),
{
    let c = times.filter(still_counts(now, window)).len();
    law_restart_budget(times, window, now, (m - 1) as nat);
    assert forall|k: nat| k < m implies #[trigger] refuses_restart(times, limit, window, now, k) == (if window.total() > 0 {
        c + k >= limit
    } else {
        c >= limit
    }) by {
        law_restart_budget(times, window, now, k);
    }
    if window.total() > 0 && c + m > limit {
        assert(refuses_restart(times, limit, window, now, (m - 1) as nat));
    }
    if window.total() == 0 && c >= limit {
        assert(refuses_restart(times, limit, window, now, 0));
    }
}

/// Tracks restart intensity to prevent restart storms.
///
/// Records restart times and checks if more restarts are allowed within the
/// configured time window.
#[derive(Debug, Clone)]
pub struct RestartIntensityTracker {
    /// Maximum restarts allowed within the time window.
    max_restarts: u32,
    /// Time window for counting restarts.
    max_seconds: Span,
    /// Times of recent restarts, oldest first.
    restart_times: Vec<Span>,
}

impl RestartIntensityTracker {
    /// The restart limit.
    pub closed spec fn limit(&self) -> u32 {
        self.max_restarts
    }

    /// The time window.
    pub closed spec fn window(&self) -> Span {
        self.max_seconds
    }

    /// The recorded restart times, oldest first.
    pub closed spec fn times(&self) -> Seq<Span> {
        self.restart_times@
    }

    /// Create a new tracker with the given limits.
    pub fn new(max_restarts: u32, max_seconds: Span) -> (t: RestartIntensityTracker)
        ensures
            t.limit() == max_restarts,
            t.window() == max_seconds,
            t.times() == Seq::<Span>::empty(),
    {
        RestartIntensityTracker { max_restarts, max_seconds, restart_times: Vec::new() }
    }

    /// Record that a restart occurred at `now`.
    pub fn record_restart(&mut self, now: Span)
        ensures
            final(self).times() == old(self).times().push(now),
            final(self).limit() == old(self).limit(),
            final(self).window() == old(self).window(),
    {
        self.restart_times.push(now);
    }

    /// Check, as of `now`, whether another restart is allowed: forget the
    /// restarts that fell out of the window, then compare how many remain
    /// (counted as a `u32`) with the limit.
    pub fn can_restart(&mut self, now: Span) -> (r: bool)
        requires
            now.wf(),
            old(self).window().wf(),
            forall|i: int| 0 <= i < old(self).times().len() ==> (#[trigger] old(self).times()[i]).wf(),
        ensures
            final(self).times() == old(self).times().filter(still_counts(now, old(self).window())),
            final(self).limit() == old(self).limit(),
            final(self).window() == old(self).window(),
            r == ((final(self).times().len() as u32) < old(self).limit()),
            forall|i: int| 0 <= i < final(self).times().len() ==> (#[trigger] final(self).times()[i]).wf(),
    {
        let ghost pred = still_counts(now, self.max_seconds);
        assert forall|k: int| 0 <= k < self.restart_times@.len() implies (#[trigger] self.restart_times@[k]).wf() by {
            assert(old(self).times()[k] == self.restart_times@[k]);
        }
        let mut kept: Vec<Span> = Vec::new();
        let mut i: usize = 0;
        while i < self.restart_times.len()
            invariant
                i <= self.restart_times.len(),
                pred == still_counts(now, self.max_seconds),
                now.wf(),
                self.max_seconds.wf(),
                forall|k: int| 0 <= k < self.restart_times@.len() ==> (#[trigger] self.restart_times@[k]).wf(),
                kept@ == self.restart_times@.take(i as int).filter(pred),
            decreases self.restart_times.len() - i,
        {
            let t = self.restart_times[i];
            proof {
                lemma_take_succ_filter(self.restart_times@, i as int, pred);
            }
            if counts_at(t, now, self.max_seconds) {
                kept.push(t);
            }
            i = i + 1;
        }
        proof {
            lemma_take_full(self.restart_times@);
            broadcast use vstd::seq_lib::group_filter_ensures;
            assert forall|k: int| 0 <= k < kept@.len() implies (#[trigger] kept@[k]).wf() by {
                let x = kept@[k];
                assert(self.restart_times@.filter(pred).contains(x));
                self.restart_times@.lemma_filter_contains_rev(pred, x);
            }
        }
        self.restart_times = kept;
        #[verifier::truncate]
        let count = self.restart_times.len() as u32;
        count < self.max_restarts
    }
}

/// Whether a restart at `t` still counts at `now` within `window`.
fn counts_at(t: Span, now: Span, window: Span) -> (r: bool)
    requires
        t.wf(),
        now.wf(),
        window.wf(),
    ensures
        r == still_counts(now, window)(t),
{
    // t + window > now  <=>  now - t < window (when t <= now), or t > now.
    if now.lt(&t) {
        true
    } else {
        let age = now.saturating_sub(t);
        age.lt(&window)
    }
}

/// Specification for a child process: its identity and restart and
/// shutdown policy, plus `start`, which starts a new instance.
pub struct ChildSpec<F> {
    /// Unique identifier for this child within the supervisor.
    id: String,
    /// Starts the child and returns a handle to it.
    start: F,
    /// When the child should be restarted.
    restart: RestartType,
    /// How to shut down the child.
    shutdown: Shutdown,
    /// Type of child (worker or supervisor).
    child_type: ChildType,
}

impl<F> ChildSpec<F> {
    /// The id.
    pub closed spec fn spec_id(&self) -> Seq<char> {
        self.id@
    }

    /// The restart policy.
    pub closed spec fn spec_restart(&self) -> RestartType {
        self.restart
    }

    /// The shutdown behavior.
    pub closed spec fn spec_shutdown(&self) -> Shutdown {
        self.shutdown
    }

    /// The child type.
    pub closed spec fn spec_child_type(&self) -> ChildType {
        self.child_type
    }

    /// The starter.
    pub closed spec fn spec_start(&self) -> F {
        self.start
    }

    /// A worker child: permanent, shut down with a 5 second timeout.
    pub fn worker(id: String, start: F) -> (s: ChildSpec<F>)
        ensures
            s.spec_id() == id@,
            s.spec_start() == start,
            s.spec_restart() == RestartType::Permanent,
            s.spec_shutdown() == Shutdown::Timeout(Span { secs: 5, nanos: 0 }),
            s.spec_child_type() == ChildType::Worker,
    {
        ChildSpec { id, start, restart: RestartType::Permanent, shutdown: Shutdown::Timeout(Span::from_secs(5)), child_type: ChildType::Worker }
    }

    /// A supervisor child (nested supervision): permanent, shut down with a
    /// 5 second timeout.
    pub fn supervisor(id: String, start: F) -> (s: ChildSpec<F>)
        ensures
            s.spec_id() == id@,
            s.spec_start() == start,
            s.spec_restart() == RestartType::Permanent,
            s.spec_shutdown() == Shutdown::Timeout(Span { secs: 5, nanos: 0 }),
            s.spec_child_type() == ChildType::Supervisor,
    {
        ChildSpec { id, start, restart: RestartType::Permanent, shutdown: Shutdown::Timeout(Span::from_secs(5)), child_type: ChildType::Supervisor }
    }

    /// Get the ID of this child spec.
    pub fn id(&self) -> (r: &str)
        ensures
            r@ == self.spec_id(),
    {
        self.id.as_str()
    }

    /// Get the restart type.
    pub fn restart_type(&self) -> (r: RestartType)
        ensures
            r == self.spec_restart(),
    {
        self.restart
    }

    /// Get the shutdown behavior.
    pub fn shutdown_behavior(&self) -> (r: Shutdown)
        ensures
            r == self.spec_shutdown(),
    {
        self.shutdown
    }

    /// Get the child type.
    pub fn child_type(&self) -> (r: ChildType)
        ensures
            r == self.spec_child_type(),
    {
        self.child_type
    }

    /// The starter of this child.
    pub fn starter(&self) -> (r: &F)
        ensures
            *r == self.spec_start(),
    {
        &self.start
    }

    /// Set the restart type for this child.
    pub fn with_restart(self, restart: RestartType) -> (s: ChildSpec<F>)
        ensures
            s.spec_restart() == restart,
            s.spec_id() == self.spec_id(),
            s.spec_start() == self.spec_start(),
            s.spec_shutdown() == self.spec_shutdown(),
            s.spec_child_type() == self.spec_child_type(),
    {
        ChildSpec { restart, ..self }
    }

    /// Set the shutdown behavior for this child.
    pub fn with_shutdown(self, shutdown: Shutdown) -> (s: ChildSpec<F>)
        ensures
            s.spec_shutdown() == shutdown,
            s.spec_id() == self.spec_id(),
            s.spec_start() == self.spec_start(),
            s.spec_restart() == self.spec_restart(),
            s.spec_child_type() == self.spec_child_type(),
    {
        ChildSpec { shutdown, ..self }
    }

    /// Mark this as a permanent child (always restart).
    pub fn permanent(self) -> (s: ChildSpec<F>)
        ensures
            s.spec_restart() == RestartType::Permanent,
            s.spec_id() == self.spec_id(),
            s.spec_start() == self.spec_start(),
            s.spec_shutdown() == self.spec_shutdown(),
            s.spec_child_type() == self.spec_child_type(),
    {
        self.with_restart(RestartType::Permanent)
    }

    /// Mark this as a transient child (restart on crash).
    pub fn transient(self) -> (s: ChildSpec<F>)
        ensures
            s.spec_restart() == RestartType::Transient,
            s.spec_id() == self.spec_id(),
            s.spec_start() == self.spec_start(),
            s.spec_shutdown() == self.spec_shutdown(),
            s.spec_child_type() == self.spec_child_type(),
    {
        self.with_restart(RestartType::Transient)
    }

    /// Mark this as a temporary child (never restart).
    pub fn temporary(self) -> (s: ChildSpec<F>)
        ensures
            s.spec_restart() == RestartType::Temporary,
            s.spec_id() == self.spec_id(),
            s.spec_start() == self.spec_start(),
            s.spec_shutdown() == self.spec_shutdown(),
            s.spec_child_type() == self.spec_child_type(),
    {
        self.with_restart(RestartType::Temporary)
    }
}

impl<F: Clone> ChildSpec<F> {
    /// A copy of this spec sharing the same starter.
    pub fn duplicate(&self) -> (s: ChildSpec<F>)
        ensures
            s.spec_id() == self.spec_id(),
            s.spec_restart() == self.spec_restart(),
            s.spec_shutdown() == self.spec_shutdown(),
            s.spec_child_type() == self.spec_child_type(),
    {
        ChildSpec {
            id: self.id.clone(),
            start: self.start.clone(),
            restart: self.restart,
            shutdown: self.shutdown,
            child_type: self.child_type,
        }
    }
}

/// Specification for a supervisor: the restart strategy, the restart
/// intensity limit, and the children in start order.
pub struct SupervisorSpec<F> {
    /// Strategy for handling child failures.
    pub strategy: RestartStrategy,
    /// Maximum number of restarts allowed within the time window.
    pub max_restarts: u32,
    /// Time window for counting restarts.
    pub max_seconds: Span,
    /// Child specifications in start order.
    pub children: Vec<ChildSpec<F>>,
    /// Optional name to register the supervisor under.
    pub name: Option<String>,
}

impl<F> SupervisorSpec<F> {
    /// A spec with the given strategy, at most 3 restarts in 5 seconds, no
    /// children and no name.
    pub fn new(strategy: RestartStrategy) -> (s: SupervisorSpec<F>)
        ensures
            s.strategy == strategy,
            s.max_restarts == 3,
            s.max_seconds == (Span { secs: 5, nanos: 0 }),
            s.children@.len() == 0,
            s.name is None,
    {
        SupervisorSpec { strategy, max_restarts: 3, max_seconds: Span::from_secs(5), children: Vec::new(), name: None }
    }

    /// Set the maximum restarts allowed within the time window.
    pub fn max_restarts(self, max_restarts: u32, max_seconds: Span) -> (s: SupervisorSpec<F>)
        ensures
            s.max_restarts == max_restarts,
            s.max_seconds == max_seconds,
            s.strategy == self.strategy,
            s.children@ == self.children@,
            s.name == self.name,
    {
        SupervisorSpec { max_restarts, max_seconds, ..self }
    }

    /// Add a child to this supervisor.
    pub fn child(self, spec: ChildSpec<F>) -> (s: SupervisorSpec<F>)
        ensures
            s.children@ == self.children@.push(spec),
            s.strategy == self.strategy,
            s.max_restarts == self.max_restarts,
            s.max_seconds == self.max_seconds,
            s.name == self.name,
    {
        let mut s = self;
        s.children.push(spec);
        s
    }

    /// Add multiple children to this supervisor, in order.
    pub fn children(self, specs: Vec<ChildSpec<F>>) -> (s: SupervisorSpec<F>)
        ensures
            s.children@ == self.children@ + specs@,
            s.strategy == self.strategy,
            s.max_restarts == self.max_restarts,
            s.max_seconds == self.max_seconds,
            s.name == self.name,
    {
        let mut s = self;
        let mut more = specs;
        s.children.append(&mut more);
        s
    }

    /// Register the supervisor with a name.
    pub fn name(self, name: String) -> (s: SupervisorSpec<F>)
        ensures
            s.name == Some(name),
            s.strategy == self.strategy,
            s.max_restarts == self.max_restarts,
            s.max_seconds == self.max_seconds,
            s.children@ == self.children@,
    {
        SupervisorSpec { name: Some(name), ..self }
    }
}

/// Error type for supervisor operations.
#[derive(Debug, Clone, PartialEq, Eq)]
pub enum SupervisorError {
    /// A child with this ID already exists.
    ChildAlreadyExists(String),
    /// The specified child was not found.
    ChildNotFound(String),
    /// Failed to start a child.
    StartFailed(String, String),
    /// Maximum restart intensity exceeded.
    MaxRestartsExceeded,
    /// The supervisor is shutting down.
    ShuttingDown,
}

impl SupervisorError {
    pub open spec fn spec_text(&self) -> Seq<char> {
        match self {
            SupervisorError::ChildAlreadyExists(id) => "child '"@ + id@ + "' already exists"@,
            SupervisorError::ChildNotFound(id) => "child '"@ + id@ + "' not found"@,
            SupervisorError::StartFailed(id, reason) => "failed to start child '"@ + id@ + "': "@ + reason@,
            SupervisorError::MaxRestartsExceeded => "maximum restart intensity exceeded"@,
            SupervisorError::ShuttingDown => "supervisor is shutting down"@,
        }
    }

    /// The error message.
    pub fn to_string(&self) -> (s: String)
        ensures
            s@ == self.spec_text(),
    {
        match self {
            SupervisorError::ChildAlreadyExists(id) => {
                let head = concat("child '", id.as_str());
                concat(head.as_str(), "' already exists")
            },
            SupervisorError::ChildNotFound(id) => {
                let head = concat("child '", id.as_str());
                concat(head.as_str(), "' not found")
            },
            SupervisorError::StartFailed(id, reason) => {
                let head = concat("failed to start child '", id.as_str());
                let mid = concat(head.as_str(), "': ");
                concat(mid.as_str(), reason.as_str())
            },
            SupervisorError::MaxRestartsExceeded => "maximum restart intensity exceeded".to_owned(),
            SupervisorError::ShuttingDown => "supervisor is shutting down".to_owned(),
        }
    }
}

/// Counts of children by type and state.
#[derive(Debug, Clone, Copy, PartialEq, Eq, Structural)]
pub struct SupervisorCounts {
    /// Total number of child specifications.
    pub specs: usize,
    /// Number of actively running children.
    pub active: usize,
    /// Number of worker children.
    pub workers: usize,
    /// Number of supervisor children.
    pub supervisors: usize,
}

impl Default for SupervisorCounts {
    fn default() -> (c: Self)
        ensures
            c == (SupervisorCounts { specs: 0, active: 0, workers: 0, supervisors: 0 }),
    {
        SupervisorCounts { specs: 0, active: 0, workers: 0, supervisors: 0 }
    }
}

/// Specification for a dynamic supervisor.
#[derive(Debug, Clone)]
pub struct DynamicSupervisorSpec {
    /// Maximum number of restarts within the time window.
    pub max_restarts: u32,
    /// Time window for restart intensity.
    pub max_seconds: Span,
    /// Optional maximum number of children.
    pub max_children: Option<usize>,
    /// Optional name for registration.
    pub name: Option<String>,
}

impl DynamicSupervisorSpec {
    /// Defaults: at most 3 restarts in 5 seconds, no child limit, no name.
    pub fn new() -> (s: DynamicSupervisorSpec)
        ensures
            s.max_restarts == 3,
            s.max_seconds == (Span { secs: 5, nanos: 0 }),
            s.max_children is None,
            s.name is None,
    {
        DynamicSupervisorSpec { max_restarts: 3, max_seconds: Span::from_secs(5), max_children: None, name: None }
    }

    /// Set the maximum restart intensity.
    pub fn max_restarts(self, max_restarts: u32, max_seconds: Span) -> (s: DynamicSupervisorSpec)
        ensures
            s.max_restarts == max_restarts,
            s.max_seconds == max_seconds,
            s.max_children == self.max_children,
            s.name == self.name,
    {
        DynamicSupervisorSpec { max_restarts, max_seconds, ..self }
    }

    /// Set the maximum number of children.
    pub fn max_children(self, max: usize) -> (s: DynamicSupervisorSpec)
        ensures
            s.max_children == Some(max),
            s.max_restarts == self.max_restarts,
            s.max_seconds == self.max_seconds,
            s.name == self.name,
    {
        DynamicSupervisorSpec { max_children: Some(max), ..self }
    }

    /// Set the name for registration.
    pub fn name(self, name: String) -> (s: DynamicSupervisorSpec)
        ensures
            s.name == Some(name),
            s.max_restarts == self.max_restarts,
            s.max_seconds == self.max_seconds,
            s.max_children == self.max_children,
    {
        DynamicSupervisorSpec { name: Some(name), ..self }
    }
}

impl Default for DynamicSupervisorSpec {
    fn default() -> (s: Self)
        ensures
            s.max_restarts == 3,
            s.max_seconds == (Span { secs: 5, nanos: 0 }),
            s.max_children is None,
            s.name is None,
    {
        DynamicSupervisorSpec::new()
    }
}

/// Error type for dynamic supervisor operations.
#[derive(Debug, Clone, Copy, PartialEq, Eq, Structural)]
pub enum DynamicSupervisorError {
    /// Child with this Pid not found.
    ChildNotFound(Pid),
    /// Maximum restart intensity exceeded.
    MaxRestartsExceeded,
    /// Maximum children limit reached.
    MaxChildrenReached,
    /// Supervisor is shutting down.
    ShuttingDown,
}

impl DynamicSupervisorError {
    pub open spec fn spec_text(&self) -> Seq<char> {
        match self {
            DynamicSupervisorError::ChildNotFound(pid) => "child with pid "@ + pid.spec_text() + " not found"@,
            DynamicSupervisorError::MaxRestartsExceeded => "maximum restart intensity exceeded"@,
            DynamicSupervisorError::MaxChildrenReached => "maximum number of children reached"@,
            DynamicSupervisorError::ShuttingDown => "dynamic supervisor is shutting down"@,
        }
    }

    /// The error message.
    pub fn to_string(&self) -> (s: String)
        ensures
            s@ == self.spec_text(),
    {
        match self {
            DynamicSupervisorError::ChildNotFound(pid) => {
                let p = pid.to_string();
                let head = concat("child with pid ", p.as_str());
                concat(head.as_str(), " not found")
            },
            DynamicSupervisorError::MaxRestartsExceeded => "maximum restart intensity exceeded".to_owned(),
            DynamicSupervisorError::MaxChildrenReached => "maximum number of children reached".to_owned(),
            DynamicSupervisorError::ShuttingDown => "dynamic supervisor is shutting down".to_owned(),
        }
    }
}


/// Trait for child handles that can be supervised: a type-erased view of a
/// running child process.
pub trait ChildHandle {
    /// Get the process ID of this child.
    fn pid(&self) -> Pid;

    /// Request graceful shutdown of this child.
    fn shutdown(&self);

    /// Check if this child is still alive.
    fn is_alive(&self) -> bool;
}

/// Starts a new instance of a child and returns a handle to it.
pub trait StartChild<H> {
    /// Start the child.
    fn start(&self) -> H;
}

/// Information about a child of a supervisor.
pub struct ChildInfo<F, H> {
    /// The child's specification.
    spec: ChildSpec<F>,
    /// The running instance: its pid and handle (None if not running).
    handle: Option<(Pid, H)>,
    /// Monitor reference for this child.
    monitor_ref: Option<MonitorRef>,
    /// Number of times this child has been restarted.
    restart_count: u32,
}

impl<F, H> ChildInfo<F, H> {
    pub closed spec fn spec_spec(&self) -> ChildSpec<F> {
        self.spec
    }

    pub open spec fn spec_id(&self) -> Seq<char> {
        self.spec_spec().spec_id()
    }

    /// The pid of the running instance, if any.
    pub closed spec fn running(&self) -> Option<Pid> {
        match self.handle {
            Some(h) => Some(h.0),
            None => None,
        }
    }

    /// The running instance (its pid and handle), if any.
    pub closed spec fn spec_instance(&self) -> Option<(Pid, H)> {
        self.handle
    }

    /// A running child is one with an instance, whose pid is the instance's.
    pub proof fn lemma_running_is_instance(&self)
        ensures
            self.running() is Some <==> self.spec_instance() is Some,
            self.spec_instance() matches Some(i) ==> self.running() == Some(i.0),
    {
    }

    pub closed spec fn spec_monitor_ref(&self) -> Option<MonitorRef> {
        self.monitor_ref
    }

    pub closed spec fn spec_restart_count(&self) -> u32 {
        self.restart_count
    }

    /// This child with its running instance forgotten.
    pub closed spec fn without_handle(&self) -> ChildInfo<F, H> {
        ChildInfo { handle: None, ..*self }
    }

    /// This child with its running instance and monitor forgotten.
    pub closed spec fn cleared(&self) -> ChildInfo<F, H> {
        ChildInfo { handle: None, monitor_ref: None, ..*self }
    }

    /// Forgetting the running instance leaves the child not running, with
    /// the same specification, monitor and restart count.
    pub proof fn lemma_without_handle(&self)
        ensures
            self.without_handle().running() is None,
            self.without_handle().spec_spec() == self.spec_spec(),
            self.without_handle().spec_monitor_ref() == self.spec_monitor_ref(),
            self.without_handle().spec_restart_count() == self.spec_restart_count(),
    {
    }

    /// Clearing leaves the child not running and unmonitored, with the same
    /// specification and restart count.
    pub proof fn lemma_cleared(&self)
        ensures
            self.cleared().running() is None,
            self.cleared().spec_monitor_ref() is None,
            self.cleared().spec_spec() == self.spec_spec(),
            self.cleared().spec_restart_count() == self.spec_restart_count(),
            self.cleared().without_handle() == self.cleared(),
    {
    }

    /// Get the child's specification.
    pub fn spec(&self) -> (r: &ChildSpec<F>)
        ensures
            *r == self.spec_spec(),
    {
        &self.spec
    }

    /// Get the child's current Pid (None if not running).
    pub fn pid(&self) -> (r: Option<Pid>)
        ensures
            r == self.running(),
    {
        match &self.handle {
            Some(h) => Some(h.0),
            None => None,
        }
    }

    /// Get the number of times this child has been restarted.
    pub fn restart_count(&self) -> (r: u32)
        ensures
            r == self.spec_restart_count(),
    {
        self.restart_count
    }

    /// Get the monitor reference for this child.
    pub fn monitor_ref(&self) -> (r: Option<MonitorRef>)
        ensures
            r == self.spec_monitor_ref(),
    {
        self.monitor_ref
    }
}

impl<F, H: ChildHandle> ChildInfo<F, H> {
    /// Check if the child is currently running: it has an instance and
    /// that instance reports itself alive.
    pub fn is_running(&self) -> (r: bool)
        ensures
            r ==> self.running() is Some,
            self.spec_instance() is None ==> !r,
            self.spec_instance() matches Some(i) ==> answers_alive(&i.1, r),
    {
        match &self.handle {
            Some(h) => {
                let alive = H::is_alive;
                alive(&h.1)
            },
            None => false,
        }
    }
}

/// The handle `h` answers `alive` when asked whether it is alive.
pub open spec fn answers_alive<H: ChildHandle>(h: &H, alive: bool) -> bool {
    call_ensures(H::is_alive, (h,), alive)
}

/// The `true` answers.
pub open spec fn is_true() -> spec_fn(bool) -> bool {
    |b: bool| b
}

/// `alive` holds, child by child, what `is_running` answered: `true` only
/// for a child with an instance, and for such a child the answer its
/// handle gave when asked whether it is alive.
pub open spec fn running_answers<F, H: ChildHandle>(infos: Seq<ChildInfo<F, H>>, alive: Seq<bool>) -> bool {
    &&& alive.len() == infos.len()
    &&& forall|k: int| 0 <= k < infos.len() ==> {
        &&& (#[trigger] alive[k] ==> infos[k].spec_instance() is Some)
        &&& (infos[k].spec_instance() matches Some(i) ==> answers_alive(&i.1, alive[k]))
    }
}

/// The children counted as active are those whose answer was `true`.
pub open spec fn counts_live_children<F, H: ChildHandle>(infos: Seq<ChildInfo<F, H>>, active: usize) -> bool {
    exists|alive: Seq<bool>| running_answers(infos, alive) && active == #[trigger] alive.filter(is_true()).len()
}

/// Every child whose instance answers that it is alive counts as active,
/// whatever its type: when every child with an instance answered `true`,
/// the active count is the number of children with an instance.
pub proof fn law_every_live_child_is_active<F, H: ChildHandle>(infos: Seq<ChildInfo<F, H>>, alive: Seq<bool>)
    requires
        running_answers(infos, alive),
        forall|k: int| 0 <= k < infos.len() && infos[k].spec_instance() is Some ==> #[trigger] alive[k],
    ensures
        alive.filter(is_true()).len() == infos.filter(|i: ChildInfo<F, H>| i.spec_instance() is Some).len(),
    decreases infos.len(),
{
    let pi = |i: ChildInfo<F, H>| i.spec_instance() is Some;
    if infos.len() > 0 {
        let di = infos.drop_last();
        let da = alive.drop_last();
        assert forall|k: int| 0 <= k < di.len() implies {
            &&& (#[trigger] da[k] ==> di[k].spec_instance() is Some)
            &&& (di[k].spec_instance() matches Some(i) ==> answers_alive(&i.1, da[k]))
        } by {
            assert(da[k] == alive[k] && di[k] == infos[k]);
        }
        assert forall|k: int| 0 <= k < di.len() && di[k].spec_instance() is Some implies #[trigger] da[k] by {
            assert(da[k] == alive[k] && di[k] == infos[k]);
        }
        law_every_live_child_is_active(di, da);
        assert(alive =~= da.push(alive.last()));
        assert(infos =~= di.push(infos.last()));
        da.lemma_filter_push(alive.last(), is_true());
        di.lemma_filter_push(infos.last(), pi);
        assert(alive.last() == alive[alive.len() - 1]);
    } else {
        assert(alive.filter(is_true()) =~= Seq::<bool>::empty()) by {
            reveal(Seq::filter);
        }
        assert(infos.filter(pi) =~= Seq::<ChildInfo<F, H>>::empty()) by {
            reveal(Seq::filter);
        }
    }
}

/// What `process_table::monitor(t0, watcher, target)` does, with `r` its
/// result turned into an option.
pub open spec fn monitor_effect<S>(t0: ProcessTable<S>, t1: ProcessTable<S>, watcher: Pid, target: Pid, r: Option<MonitorRef>) -> bool {
    &&& t1.wf()
    &&& t1.procs() == t0.procs()
    &&& t1.link_halves() == t0.link_halves()
    &&& if t0.registered(watcher) {
        &&& r == Some(MonitorRef(t0.next_ref()))
        &&& t1.next_ref() == t0.next_ref() + 1
        &&& t1.monitor_entries() == (if t0.registered(target) {
            t0.monitor_entries().push((MonitorRef(t0.next_ref()), watcher, target))
        } else {
            t0.monitor_entries()
        })
    } else {
        &&& r is None
        &&& t1.next_ref() == t0.next_ref()
        &&& t1.monitor_entries() == t0.monitor_entries()
    }
}

/// Which children are restarted when child `id` (at position `idx` of
/// the start order `order`) has to be restarted under `strategy`.
pub open spec fn restart_set(order: Seq<Seq<char>>, strategy: RestartStrategy, id: Seq<char>, idx: int) -> Seq<Seq<char>> {
    match strategy {
        RestartStrategy::OneForOne => seq![id],
        RestartStrategy::OneForAll => order,
        RestartStrategy::RestForOne => order.skip(idx),
    }
}

/// Which children are terminated first (in this order, last started
/// first) when child `id` at position `idx` has to be restarted.
pub open spec fn terminate_set(order: Seq<Seq<char>>, strategy: RestartStrategy, id: Seq<char>, idx: int) -> Seq<Seq<char>> {
    match strategy {
        RestartStrategy::OneForOne => Seq::empty(),
        RestartStrategy::OneForAll => order.filter(other_id(id)).reverse(),
        RestartStrategy::RestForOne => order.skip(idx + 1).reverse(),
    }
}

/// Whether a child with policy `restart` is restarted after exiting with `reason`.
pub open spec fn should_restart(restart: RestartType, reason: ExitReason) -> bool {
    match restart {
        RestartType::Permanent => true,
        RestartType::Transient => !reason.spec_is_normal(),
        RestartType::Temporary => false,
    }
}

/// The state of a supervisor: its children in start order, which pid
/// belongs to which child, its restart intensity and whether it is
/// shutting down.
pub struct SupervisorState<F, H> {
    /// The supervisor specification.
    spec: SupervisorSpec<F>,
    /// Children in start order, each id at most once.
    children: Vec<ChildInfo<F, H>>,
    /// Pid number to child ID mapping.
    pid_to_child: HashMap<u64, String>,
    /// Restart intensity tracker.
    restart_tracker: RestartIntensityTracker,
    /// Whether we're in the process of shutting down.
    shutting_down: bool,
}

impl<F, H> SupervisorState<F, H> {
    pub closed spec fn infos(&self) -> Seq<ChildInfo<F, H>> {
        self.children@
    }

    /// Child ids in start order.
    pub open spec fn order(&self) -> Seq<Seq<char>> {
        self.infos().map_values(|c: ChildInfo<F, H>| c.spec_id())
    }

    pub closed spec fn pid_map(&self) -> Map<u64, String> {
        self.pid_to_child@
    }

    pub closed spec fn tracker(&self) -> RestartIntensityTracker {
        self.restart_tracker
    }

    pub closed spec fn is_shutting_down(&self) -> bool {
        self.shutting_down
    }

    pub closed spec fn strategy(&self) -> RestartStrategy {
        self.spec.strategy
    }

    /// Index of child `id` in start order.
    pub open spec fn index_of(&self, id: Seq<char>) -> int {
        choose|i: int| 0 <= i < self.order().len() && self.order()[i] == id
    }

    /// Well-formedness: ids are distinct; every pid mapped to a child is
    /// that child's running instance; restart times are valid spans.
    pub open spec fn wf(&self) -> bool {
        &&& self.order().no_duplicates()
        &&& forall|p: u64| #[trigger] self.pid_map().contains_key(p) ==> {
            let id = self.pid_map()[p]@;
            &&& self.order().contains(id)
            &&& self.infos()[self.index_of(id)].running() == Some(Pid { id: p })
        }
        &&& self.tracker().window().wf()
        &&& forall|i: int| 0 <= i < self.tracker().times().len() ==> (#[trigger] self.tracker().times()[i]).wf()
    }

    /// Create a new supervisor state from a specification.
    pub fn new(spec: SupervisorSpec<F>) -> (s: SupervisorState<F, H>)
        requires
            spec.max_seconds.wf(),
        ensures
            s.wf(),
            s.infos().len() == 0,
            s.pid_map() == Map::<u64, String>::empty(),
            s.tracker().limit() == spec.max_restarts,
            s.tracker().window() == spec.max_seconds,
            s.tracker().times().len() == 0,
            !s.is_shutting_down(),
            s.strategy() == spec.strategy,
            s.spec_children() == spec.children@,
            s.spec_name() == spec.name,
    {
        let restart_tracker = RestartIntensityTracker::new(spec.max_restarts, spec.max_seconds);
        let s = SupervisorState {
            spec,
            children: Vec::new(),
            pid_to_child: HashMap::new(),
            restart_tracker,
            shutting_down: false,
        };
        assert(s.order() =~= Seq::<Seq<char>>::empty());
        s
    }

    /// Index of the child with id `id`.
    fn find(&self, id: &String) -> (r: Option<usize>)
        requires
            self.wf(),
        ensures
            r is None <==> !self.order().contains(id@),
            r matches Some(i) ==> i < self.infos().len() && self.order()[i as int] == id@ && i == self.index_of(id@),
    {
        let mut i: usize = 0;
        while i < self.children.len()
            invariant
                i <= self.children.len(),
                self.wf(),
                forall|k: int| 0 <= k < i ==> self.order()[k] != id@,
            decreases self.children.len() - i,
        {
            if self.children[i].spec.id == *id {
                proof {
                    assert(self.order()[i as int] == id@);
                    assert(self.order().contains(id@));
                    let j = self.index_of(id@);
                    assert(0 <= j < self.order().len() && self.order()[j] == id@);
                    if j != i {
                        assert(self.order().no_duplicates());
                        assert(self.order()[j] != self.order()[i as int]);
                    }
                }
                return Some(i);
            }
            i = i + 1;
        }
        proof {
            if self.order().contains(id@) {
                let k = choose|k: int| 0 <= k < self.order().len() && self.order()[k] == id@;
                assert(self.order()[k] == id@);
            }
        }
        None
    }

    /// Get the list of child IDs in start order.
    pub fn which_children(&self) -> (r: Vec<String>)
        ensures
            r@.map_values(|s: String| s@) == self.order(),
    {
        let mut out: Vec<String> = Vec::new();
        let mut i: usize = 0;
        while i < self.children.len()
            invariant
                i <= self.children.len(),
                out@.map_values(|s: String| s@) == self.order().take(i as int),
            decreases self.children.len() - i,
        {
            let ghost before = out@;
            out.push(self.children[i].spec.id.clone());
            proof {
                assert(self.order()[i as int] == self.children@[i as int].spec_id());
                assert(out@.map_values(|s: String| s@) =~= before.map_values(|s: String| s@).push(self.order()[i as int]));
                assert(self.order().take(i + 1) =~= self.order().take(i as int).push(self.order()[i as int]));
            }
            i = i + 1;
        }
        proof {
            lemma_take_full(self.order());
        }
        out
    }
}


/// The pid of the running instance of child `id` among `infos`, if any.
pub open spec fn running_in<F, H>(infos: Seq<ChildInfo<F, H>>, id: Seq<char>) -> Option<Pid> {
    if exists|k: int| 0 <= k < infos.len() && #[trigger] infos[k].spec_id() == id {
        infos[choose|k: int| 0 <= k < infos.len() && #[trigger] infos[k].spec_id() == id].running()
    } else {
        None
    }
}

/// The running pid of each listed child, skipping those not running.
pub open spec fn running_pid_of<F, H>(infos: Seq<ChildInfo<F, H>>) -> spec_fn(Seq<char>) -> Option<Pid> {
    |id: Seq<char>| running_in(infos, id)
}

/// The numbers of a sequence of pids, as a set.
pub open spec fn pid_numbers(pids: Seq<Pid>) -> Set<u64> {
    pids.map_values(|p: Pid| p.id).to_set()
}

impl<F, H: ChildHandle> SupervisorState<F, H> {
    /// Stop the running instance of the child at index `i`, if any: forget
    /// it, drop its pid from the pid map and ask it to shut down.
    fn stop_at(&mut self, i: usize) -> (r: Option<Pid>)
        requires
            old(self).wf(),
            i < old(self).infos().len(),
        ensures
            final(self).wf(),
            r == old(self).infos()[i as int].running(),
            old(self).infos()[i as int].spec_instance() matches Some(inst) ==> asked_to_shut_down(&inst.1),
            final(self).infos() == old(self).infos().update(i as int, old(self).infos()[i as int].without_handle()),
            final(self).order() == old(self).order(),
            final(self).pid_map() == (match r {
                Some(p) => old(self).pid_map().remove(p.id),
                None => old(self).pid_map(),
            }),
            final(self).tracker() == old(self).tracker(),
            final(self).is_shutting_down() == old(self).is_shutting_down(),
            final(self).strategy() == old(self).strategy(),
    {
        let mut info = self.children.remove(i);
        let h = info.handle.take();
        self.children.insert(i, info);
        proof {
            assert(self.children@ =~= old(self).children@.update(i as int, old(self).children@[i as int].without_handle()));
            assert(self.order() =~= old(self).order());
        }
        let r = match h {
            Some(pair) => {
                let (p, handle) = pair;
                self.pid_to_child.remove(&p.id);
                shut_down_handle(&handle);
                Some(p)
            },
            None => None,
        };
        proof {
            assert forall|q: u64| #[trigger] self.pid_map().contains_key(q) implies {
                let id = self.pid_map()[q]@;
                &&& self.order().contains(id)
                &&& self.infos()[self.index_of(id)].running() == Some(Pid { id: q })
            } by {
                assert(old(self).pid_map().contains_key(q));
                let id = old(self).pid_map()[q]@;
                let j = old(self).index_of(id);
                assert(self.index_of(id) == j);
                if j == i {
                    assert(old(self).infos()[j].running() == Some(Pid { id: q }));
                    assert(r == Some(Pid { id: q }));
                }
            }
        }
        r
    }

    /// Terminate a child by ID: forget its running instance, drop its pid
    /// and ask it to shut down. Fails with `ChildNotFound(id)` for an
    /// unknown id.
    pub fn terminate_child(&mut self, id: &str) -> (r: Result<(), SupervisorError>)
        requires
            old(self).wf(),
        ensures
            final(self).wf(),
            !old(self).order().contains(id@) ==> (r matches Err(SupervisorError::ChildNotFound(n)) && n@ == id@
                && final(self).infos() == old(self).infos() && final(self).pid_map() == old(self).pid_map()),
            old(self).order().contains(id@) ==> r is Ok && {
                let i = old(self).index_of(id@);
                &&& final(self).infos() == old(self).infos().update(i, old(self).infos()[i].without_handle())
                &&& final(self).pid_map() == (match old(self).infos()[i].running() {
                    Some(p) => old(self).pid_map().remove(p.id),
                    None => old(self).pid_map(),
                })
            },
            final(self).tracker() == old(self).tracker(),
            final(self).is_shutting_down() == old(self).is_shutting_down(),
            final(self).strategy() == old(self).strategy(),
    {
        let key = id.to_owned();
        match self.find(&key) {
            None => Err(SupervisorError::ChildNotFound(key)),
            Some(i) => {
                self.stop_at(i);
                Ok(())
            },
        }
    }

    /// Terminate the listed children, last listed first, skipping unknown
    /// ids and children that are not running. Returns the pids that were
    /// asked to shut down, in that order.
    pub fn terminate_children(&mut self, ids: &Vec<String>) -> (stopped: Vec<Pid>)
        requires
            old(self).wf(),
            texts(ids@).no_duplicates(),
        ensures
            final(self).wf(),
            stopped@ == texts(ids@).reverse().filter_map(running_pid_of(old(self).infos())),
            final(self).infos().len() == old(self).infos().len(),
            forall|k: int| 0 <= k < old(self).infos().len() ==> #[trigger] final(self).infos()[k] == (if texts(
                ids@,
            ).contains(old(self).order()[k]) {
                old(self).infos()[k].without_handle()
            } else {
                old(self).infos()[k]
            }),
            final(self).order() == old(self).order(),
            final(self).pid_map() == old(self).pid_map().remove_keys(pid_numbers(stopped@)),
            final(self).tracker() == old(self).tracker(),
            final(self).is_shutting_down() == old(self).is_shutting_down(),
            final(self).strategy() == old(self).strategy(),
    {
        let ghost rids = texts(ids@).reverse();
        let ghost old_infos = self.infos();
        let ghost old_map = self.pid_map();
        let ghost g = running_pid_of(old_infos);
        let mut out: Vec<Pid> = Vec::new();
        let n = ids.len();
        let mut i: usize = 0;
        while i < n
            invariant
                n == ids@.len(),
                i <= n,
                rids == texts(ids@).reverse(),
                rids.no_duplicates(),
                g == running_pid_of(old_infos),
                self.wf(),
                self.order() == old_infos.map_values(|c: ChildInfo<F, H>| c.spec_id()),
                self.infos().len() == old_infos.len(),
                forall|k: int| 0 <= k < old_infos.len() ==> #[trigger] self.infos()[k] == (if rids.take(i as int).contains(
                    self.order()[k],
                ) {
                    old_infos[k].without_handle()
                } else {
                    old_infos[k]
                }),
                out@ == rids.take(i as int).filter_map(g),
                self.pid_map() == old_map.remove_keys(pid_numbers(out@)),
                self.tracker() == old(self).tracker(),
                self.is_shutting_down() == old(self).is_shutting_down(),
                self.strategy() == old(self).strategy(),
            decreases n - i,
        {
            let ghost before_infos = self.infos();
            let ghost before_map = self.pid_map();
            let ghost cur = rids[i as int];
            proof {
                rids.lemma_filter_map_take_succ(g, i as int);
                assert(texts(ids@)[n - 1 - i] == ids@[n - 1 - i]@);
                assert(cur == ids@[n - 1 - i]@);
            }
            let found = self.find(&ids[n - 1 - i]);
            match found {
                Some(k) => {
                    let r = self.stop_at(k);
                    proof {
                        assert(!rids.take(i as int).contains(cur)) by {
                            if rids.take(i as int).contains(cur) {
                                let q = choose|q: int| 0 <= q < i && rids.take(i as int)[q] == cur;
                                assert(rids[q] == rids[i as int]);
                            }
                        }
                        assert(before_infos[k as int] == old_infos[k as int]);
                        assert(running_in(old_infos, cur) == old_infos[k as int].running()) by {
                            assert(old_infos[k as int].spec_id() == cur);
                            let c = choose|c: int| 0 <= c < old_infos.len() && #[trigger] old_infos[c].spec_id() == cur;
                            if c != k as int {
                                assert(self.order()[c] == self.order()[k as int]);
                            }
                        }
                    }
                    match r {
                        Some(p) => {
                            let ghost before_out = out@;
                            out.push(p);
                            proof {
                                assert(out@.map_values(|p: Pid| p.id) =~= before_out.map_values(|p: Pid| p.id).push(p.id));
                                before_out.map_values(|p: Pid| p.id).lemma_push_to_set_commute(p.id);
                                assert(pid_numbers(out@) =~= pid_numbers(before_out).insert(p.id));
                                assert(self.pid_map() =~= old_map.remove_keys(pid_numbers(out@)));
                            }
                        },
                        None => {},
                    }
                },
                None => {
                    proof {
                        assert(running_in(old_infos, cur) is None) by {
                            if exists|c: int| 0 <= c < old_infos.len() && #[trigger] old_infos[c].spec_id() == cur {
                                let c = choose|c: int| 0 <= c < old_infos.len() && #[trigger] old_infos[c].spec_id() == cur;
                                assert(self.order()[c] == cur);
                            }
                        }
                    }
                },
            }
            i = i + 1;
        }
        proof {
            assert(rids.take(n as int) =~= rids);
            assert forall|x: Seq<char>| rids.contains(x) <==> texts(ids@).contains(x) by {
                if rids.contains(x) {
                    let q = choose|q: int| 0 <= q < rids.len() && rids[q] == x;
                    assert(texts(ids@)[n - 1 - q] == x);
                }
                if texts(ids@).contains(x) {
                    let q = choose|q: int| 0 <= q < texts(ids@).len() && texts(ids@)[q] == x;
                    assert(rids[n - 1 - q] == x);
                }
            }
        }
        out
    }
}


/// In a start order without repeated ids, the position of the id at `k` is `k`.
proof fn lemma_index_unique<F, H>(s: &SupervisorState<F, H>, k: int)
    requires
        s.order().no_duplicates(),
        0 <= k < s.order().len(),
    ensures
        s.index_of(s.order()[k]) == k,
        s.order().contains(s.order()[k]),
{
    let id = s.order()[k];
    assert(s.order()[k] == id);
    let j = s.index_of(id);
    assert(0 <= j < s.order().len() && s.order()[j] == id);
    if j != k {
        assert(s.order()[j] != s.order()[k]);
    }
}

impl<F: StartChild<H>, H: ChildHandle> SupervisorState<F, H> {
    /// Start a child from `spec` and monitor it from `sup` in `table`.
    ///
    /// Fails with `ChildAlreadyExists(id)` when a child with the same id
    /// exists (nothing is started then).
    pub fn start_child_internal<S: SystemMessageSender>(
        &mut self,
        spec: ChildSpec<F>,
        table: &mut ProcessTable<S>,
        sup: Pid,
    ) -> (r: Result<Pid, SupervisorError>)
        requires
            old(self).wf(),
            old(table).wf(),
            old(table).next_ref() < u64::MAX,
        ensures
            final(self).wf(),
            old(self).order().contains(spec.spec_id()) ==> (r matches Err(SupervisorError::ChildAlreadyExists(n))
                && n@ == spec.spec_id() && final(self).infos() == old(self).infos()
                && final(self).pid_map() == old(self).pid_map() && *final(table) == *old(table)),
            !old(self).order().contains(spec.spec_id()) ==> (r matches Ok(pid) && {
                let c = final(self).infos().last();
                &&& final(self).infos().len() == old(self).infos().len() + 1
                &&& final(self).infos().drop_last() == old(self).infos()
                &&& c.spec_spec() == spec
                &&& c.running() == Some(pid)
                &&& (c.spec_instance() matches Some(inst) && answers_pid(&inst.1, pid))
                &&& c.spec_restart_count() == 0
                &&& monitor_effect(*old(table), *final(table), sup, pid, c.spec_monitor_ref())
                &&& final(self).pid_map() == old(self).pid_map().insert(pid.id, final(self).pid_map()[pid.id])
                &&& final(self).pid_map()[pid.id]@ == spec.spec_id()
            }),
            final(self).tracker() == old(self).tracker(),
            final(self).is_shutting_down() == old(self).is_shutting_down(),
            final(self).strategy() == old(self).strategy(),
            final(self).spec_children() == old(self).spec_children(),
            final(self).spec_name() == old(self).spec_name(),
    {
        let id = spec.id.clone();
        if self.find(&id).is_some() {
            return Err(SupervisorError::ChildAlreadyExists(id));
        }
        let handle = spec.start.start();
        let pid = pid_of_handle(&handle);
        let monitor_ref = match process_table::monitor(table, sup, pid).0 {
            Ok(m) => Some(m),
            Err(_) => None,
        };
        let info = ChildInfo { spec, handle: Some((pid, handle)), monitor_ref, restart_count: 0 };
        self.children.push(info);
        self.pid_to_child.insert(pid.id, id);
        proof {
            let n = old(self).infos().len();
            assert(self.infos().drop_last() =~= old(self).infos());
            assert(self.order() =~= old(self).order().push(self.infos()[n as int].spec_id()));
            crate::seqs::lemma_push_no_duplicates(old(self).order(), self.infos()[n as int].spec_id());
            assert forall|q: u64| #[trigger] self.pid_map().contains_key(q) implies {
                let cid = self.pid_map()[q]@;
                &&& self.order().contains(cid)
                &&& self.infos()[self.index_of(cid)].running() == Some(Pid { id: q })
            } by {
                if q == pid.id {
                    lemma_index_unique(self, n as int);
                } else {
                    let cid = old(self).pid_map()[q]@;
                    let j = old(self).index_of(cid);
                    assert(old(self).order()[j] == cid);
                    assert(self.order()[j] == cid);
                    lemma_index_unique(self, j);
                }
            }
        }
        Ok(pid)
    }

    /// Start a new child dynamically; refused with `ShuttingDown` while the
    /// supervisor shuts down.
    pub fn start_child<S: SystemMessageSender>(
        &mut self,
        spec: ChildSpec<F>,
        table: &mut ProcessTable<S>,
        sup: Pid,
    ) -> (r: Result<Pid, SupervisorError>)
        requires
            old(self).wf(),
            old(table).wf(),
            old(table).next_ref() < u64::MAX,
        ensures
            final(self).wf(),
            old(self).is_shutting_down() ==> r == Err::<Pid, SupervisorError>(SupervisorError::ShuttingDown)
                && final(self).infos() == old(self).infos() && final(self).pid_map() == old(self).pid_map()
                && *final(table) == *old(table),
            !old(self).is_shutting_down() && old(self).order().contains(spec.spec_id()) ==> (r matches Err(
                SupervisorError::ChildAlreadyExists(n),
            ) && n@ == spec.spec_id() && final(self).infos() == old(self).infos()
                && final(self).pid_map() == old(self).pid_map() && *final(table) == *old(table)),
            !old(self).is_shutting_down() && !old(self).order().contains(spec.spec_id()) ==> (r matches Ok(pid) && {
                let c = final(self).infos().last();
                &&& final(self).infos().len() == old(self).infos().len() + 1
                &&& final(self).infos().drop_last() == old(self).infos()
                &&& c.spec_spec() == spec
                &&& c.running() == Some(pid)
                &&& (c.spec_instance() matches Some(inst) && answers_pid(&inst.1, pid))
                &&& c.spec_restart_count() == 0
                &&& monitor_effect(*old(table), *final(table), sup, pid, c.spec_monitor_ref())
                &&& final(self).pid_map() == old(self).pid_map().insert(pid.id, final(self).pid_map()[pid.id])
                &&& final(self).pid_map()[pid.id]@ == spec.spec_id()
            }),
            final(self).tracker() == old(self).tracker(),
            final(self).is_shutting_down() == old(self).is_shutting_down(),
            final(self).strategy() == old(self).strategy(),
    {
        if self.shutting_down {
            return Err(SupervisorError::ShuttingDown);
        }
        self.start_child_internal(spec, table, sup)
    }

    /// Restart the child `id` as of `now`: refused while shutting down,
    /// when the restart intensity is exhausted, or for an unknown id;
    /// otherwise the old instance is stopped and its monitor dropped, a new
    /// instance is started and monitored from `sup`, and the restart is
    /// counted and recorded.
    pub fn restart_child<S: SystemMessageSender>(
        &mut self,
        id: &str,
        now: Span,
        table: &mut ProcessTable<S>,
        sup: Pid,
    ) -> (r: Result<Pid, SupervisorError>)
        requires
            old(self).wf(),
            old(table).wf(),
            old(table).next_ref() < u64::MAX,
            now.wf(),
            forall|k: int| 0 <= k < old(self).infos().len() ==> #[trigger] old(self).infos()[k].spec_restart_count() < u32::MAX,
        ensures
            final(self).wf(),
            old(self).is_shutting_down() ==> r == Err::<Pid, SupervisorError>(SupervisorError::ShuttingDown)
                && *final(self) == *old(self) && *final(table) == *old(table),
            !old(self).is_shutting_down() ==> {
                let pruned = old(self).tracker().times().filter(still_counts(now, old(self).tracker().window()));
                let allowed = (pruned.len() as u32) < old(self).tracker().limit();
                &&& !allowed ==> r == Err::<Pid, SupervisorError>(SupervisorError::MaxRestartsExceeded)
                    && final(self).tracker().times() == pruned
                    && final(self).infos() == old(self).infos() && final(self).pid_map() == old(self).pid_map()
                    && *final(table) == *old(table)
                &&& allowed && !old(self).order().contains(id@) ==> (r matches Err(SupervisorError::ChildNotFound(n))
                    && n@ == id@ && final(self).tracker().times() == pruned
                    && final(self).infos() == old(self).infos() && final(self).pid_map() == old(self).pid_map()
                    && *final(table) == *old(table))
                &&& allowed && old(self).order().contains(id@) ==> (r matches Ok(pid) && {
                    let i = old(self).index_of(id@);
                    let o = old(self).infos()[i];
                    let c = final(self).infos()[i];
                    &&& final(self).infos().len() == old(self).infos().len()
                    &&& forall|k: int| 0 <= k < old(self).infos().len() && k != i ==> #[trigger] final(self).infos()[k] == old(self).infos()[k]
                    &&& c.spec_spec() == o.spec_spec()
                    &&& c.running() == Some(pid)
                    &&& (c.spec_instance() matches Some(inst) && answers_pid(&inst.1, pid))
                    &&& c.spec_restart_count() == o.spec_restart_count() + 1
                    &&& (exists|mid: ProcessTable<S>| {
                        &&& mid.wf()
                        &&& mid.procs() == old(table).procs()
                        &&& mid.link_halves() == old(table).link_halves()
                        &&& mid.next_ref() == old(table).next_ref()
                        &&& mid.monitor_entries() == (match o.spec_monitor_ref() {
                            Some(m) => old(table).monitor_entries().filter(process_table::monitor_other_ref(m)),
                            None => old(table).monitor_entries(),
                        })
                        &&& monitor_effect(mid, *final(table), sup, pid, c.spec_monitor_ref())
                    })
                    &&& final(self).pid_map() == (match o.running() {
                        Some(p) => old(self).pid_map().remove(p.id),
                        None => old(self).pid_map(),
                    }).insert(pid.id, final(self).pid_map()[pid.id])
                    &&& final(self).pid_map()[pid.id]@ == id@
                    &&& final(self).tracker().times() == pruned.push(now)
                })
            },
            final(self).tracker().limit() == old(self).tracker().limit(),
            final(self).tracker().window() == old(self).tracker().window(),
            final(self).is_shutting_down() == old(self).is_shutting_down(),
            final(self).strategy() == old(self).strategy(),
    {
        if self.shutting_down {
            return Err(SupervisorError::ShuttingDown);
        }
        if !self.restart_tracker.can_restart(now) {
            return Err(SupervisorError::MaxRestartsExceeded);
        }
        let key = id.to_owned();
        let i = match self.find(&key) {
            None => {
                return Err(SupervisorError::ChildNotFound(key));
            },
            Some(i) => i,
        };
        let ghost s0 = *self;
        self.stop_at(i);
        let ghost s1 = *self;
        let mut info = self.children.remove(i);
        proof {
            assert(info == s1.infos()[i as int]);
            assert(s0.infos()[i as int] == old(self).infos()[i as int]);
            assert(old(self).infos()[i as int].spec_restart_count() < u32::MAX);
        }
        match info.monitor_ref.take() {
            Some(m) => process_table::demonitor(table, m),
            None => {},
        }
        let ghost mid = *table;
        let new_handle = info.spec.start.start();
        let pid = pid_of_handle(&new_handle);
        info.monitor_ref = match process_table::monitor(table, sup, pid).0 {
            Ok(m) => Some(m),
            Err(_) => None,
        };
        info.handle = Some((pid, new_handle));
        info.restart_count = info.restart_count + 1;
        self.children.insert(i, info);
        self.pid_to_child.insert(pid.id, key);
        self.restart_tracker.record_restart(now);
        proof {
            assert(self.children@ =~= s1.children@.update(i as int, self.children@[i as int]));
            assert(self.order() =~= s0.order()) by {
                assert forall|k: int| 0 <= k < self.order().len() implies self.order()[k] == s0.order()[k] by {
                    if k == i as int {
                        assert(self.infos()[k].spec_id() == s1.infos()[k].spec_id());
                    } else {
                        assert(self.infos()[k] == s1.infos()[k]);
                    }
                }
            }
            lemma_index_unique(self, i as int);
            assert forall|q: u64| #[trigger] self.pid_map().contains_key(q) implies {
                let cid = self.pid_map()[q]@;
                &&& self.order().contains(cid)
                &&& self.infos()[self.index_of(cid)].running() == Some(Pid { id: q })
            } by {
                if q == pid.id {
                } else {
                    assert(s1.pid_map().contains_key(q));
                    let cid = s1.pid_map()[q]@;
                    let j = s1.index_of(cid);
                    assert(s1.order()[j] == cid);
                    lemma_index_unique(self, j);
                    if j == i as int {
                        assert(s1.infos()[j].running() is None);
                    }
                }
            }
            assert(mid.monitor_entries() == (match s0.infos()[i as int].spec_monitor_ref() {
                Some(m) => old(table).monitor_entries().filter(process_table::monitor_other_ref(m)),
                None => old(table).monitor_entries(),
            }));
        }
        Ok(pid)
    }
}


/// Keep ids other than `id`.
pub open spec fn other_id(id: Seq<char>) -> spec_fn(Seq<char>) -> bool {
    |c: Seq<char>| c != id
}

impl<F, H: ChildHandle> SupervisorState<F, H> {
    /// Delete a child: terminate it if it is running, then forget its
    /// specification. Fails with `ChildNotFound(id)` for an unknown id.
    pub fn delete_child(&mut self, id: &str) -> (r: Result<(), SupervisorError>)
        requires
            old(self).wf(),
        ensures
            final(self).wf(),
            !old(self).order().contains(id@) ==> (r matches Err(SupervisorError::ChildNotFound(n)) && n@ == id@
                && final(self).infos() == old(self).infos() && final(self).pid_map() == old(self).pid_map()),
            old(self).order().contains(id@) ==> r is Ok && {
                let i = old(self).index_of(id@);
                &&& final(self).infos() == old(self).infos().remove(i)
                &&& final(self).pid_map() == (match old(self).infos()[i].running() {
                    Some(p) => old(self).pid_map().remove(p.id),
                    None => old(self).pid_map(),
                })
            },
            final(self).tracker() == old(self).tracker(),
            final(self).is_shutting_down() == old(self).is_shutting_down(),
            final(self).strategy() == old(self).strategy(),
    {
        let key = id.to_owned();
        let i = match self.find(&key) {
            None => {
                return Err(SupervisorError::ChildNotFound(key));
            },
            Some(i) => i,
        };
        self.stop_at(i);
        let ghost s1 = *self;
        let _gone = self.children.remove(i);
        proof {
            assert(self.infos() =~= old(self).infos().remove(i as int)) by {
                assert forall|k: int| 0 <= k < self.infos().len() implies self.infos()[k] == old(self).infos().remove(i as int)[k] by {
                    if k < i {
                        assert(self.infos()[k] == s1.infos()[k]);
                    } else {
                        assert(self.infos()[k] == s1.infos()[k + 1]);
                    }
                }
            }
            assert(self.order() =~= s1.order().remove(i as int));
            assert forall|a: int, b: int| 0 <= a < self.order().len() && 0 <= b < self.order().len() && a != b
                implies self.order()[a] != self.order()[b] by {
                let a2 = if a < i { a } else { a + 1 };
                let b2 = if b < i { b } else { b + 1 };
                assert(self.order()[a] == s1.order()[a2]);
                assert(self.order()[b] == s1.order()[b2]);
            }
            assert forall|q: u64| #[trigger] self.pid_map().contains_key(q) implies {
                let cid = self.pid_map()[q]@;
                &&& self.order().contains(cid)
                &&& self.infos()[self.index_of(cid)].running() == Some(Pid { id: q })
            } by {
                let cid = s1.pid_map()[q]@;
                let j = s1.index_of(cid);
                assert(s1.order()[j] == cid);
                assert(s1.infos()[j].running() == Some(Pid { id: q }));
                assert(j != i as int);
                let j2 = if j < i { j } else { j - 1 };
                assert(self.order()[j2] == cid);
                lemma_index_unique(self, j2);
            }
        }
        Ok(())
    }

    /// Counts of the children: specs, running, workers and supervisors.
    pub fn count_children(&self) -> (c: SupervisorCounts)
        ensures
            c.specs == self.infos().len(),
            c.active <= self.infos().filter(|i: ChildInfo<F, H>| i.running() is Some).len(),
            counts_live_children(self.infos(), c.active),
            c.workers == self.infos().filter(|i: ChildInfo<F, H>| i.spec_spec().spec_child_type() == ChildType::Worker).len(),
            c.supervisors == self.infos().filter(|i: ChildInfo<F, H>| i.spec_spec().spec_child_type() == ChildType::Supervisor).len(),
    {
        let ghost mut alive: Seq<bool> = Seq::empty();
        let ghost pw = |i: ChildInfo<F, H>| i.spec_spec().spec_child_type() == ChildType::Worker;
        let ghost ps = |i: ChildInfo<F, H>| i.spec_spec().spec_child_type() == ChildType::Supervisor;
        let ghost pa = |i: ChildInfo<F, H>| i.running() is Some;
        let mut counts = SupervisorCounts { specs: 0, active: 0, workers: 0, supervisors: 0 };
        let mut k: usize = 0;
        while k < self.children.len()
            invariant
                k <= self.children.len(),
                pw == (|i: ChildInfo<F, H>| i.spec_spec().spec_child_type() == ChildType::Worker),
                ps == (|i: ChildInfo<F, H>| i.spec_spec().spec_child_type() == ChildType::Supervisor),
                pa == (|i: ChildInfo<F, H>| i.running() is Some),
                counts.specs == k,
                counts.active <= self.infos().take(k as int).filter(pa).len(),
                counts.workers == self.infos().take(k as int).filter(pw).len(),
                counts.supervisors == self.infos().take(k as int).filter(ps).len(),
                running_answers(self.infos().take(k as int), alive),
                counts.active == alive.filter(is_true()).len(),
            decreases self.children.len() - k,
        {
            proof {
                lemma_take_succ_filter(self.infos(), k as int, pw);
                lemma_take_succ_filter(self.infos(), k as int, ps);
                lemma_take_succ_filter(self.infos(), k as int, pa);
                assert(self.infos().take(k as int).filter(pa).len() <= k) by {
                    self.infos().take(k as int).lemma_filter_len(pa);
                }
            }
            let info = &self.children[k];
            counts.specs = counts.specs + 1;
            let running = info.is_running();
            proof {
                let before = alive;
                alive = alive.push(running);
                before.lemma_filter_push(running, is_true());
                let t1 = self.infos().take(k + 1);
                assert forall|j: int| 0 <= j < t1.len() implies {
                    &&& (#[trigger] alive[j] ==> t1[j].spec_instance() is Some)
                    &&& (t1[j].spec_instance() matches Some(i) ==> answers_alive(&i.1, alive[j]))
                } by {
                    if j < k {
                        assert(alive[j] == before[j]);
                        assert(t1[j] == self.infos().take(k as int)[j]);
                    }
                }
                assert(alive.filter(is_true()).len() <= k + 1) by {
                    alive.lemma_filter_len(is_true());
                }
            }
            if running {
                counts.active = counts.active + 1;
            }
            match info.spec.child_type {
                ChildType::Worker => counts.workers = counts.workers + 1,
                ChildType::Supervisor => counts.supervisors = counts.supervisors + 1,
            }
            k = k + 1;
        }
        proof {
            lemma_take_full(self.infos());
        }
        counts
    }

    /// Begin the shutdown sequence: refuse further starts and restarts and
    /// terminate all children, last started first. Returns the pids asked
    /// to shut down.
    pub fn shutdown(&mut self) -> (stopped: Vec<Pid>)
        requires
            old(self).wf(),
        ensures
            final(self).wf(),
            final(self).is_shutting_down(),
            stopped@ == old(self).order().reverse().filter_map(running_pid_of(old(self).infos())),
            final(self).infos().len() == old(self).infos().len(),
            forall|k: int| 0 <= k < old(self).infos().len() ==> #[trigger] final(self).infos()[k] == old(self).infos()[k].without_handle(),
            final(self).pid_map() == old(self).pid_map().remove_keys(pid_numbers(stopped@)),
    {
        self.shutting_down = true;
        let all = self.which_children();
        let stopped = self.terminate_children(&all);
        proof {
            assert forall|k: int| 0 <= k < old(self).infos().len() implies texts(all@).contains(old(self).order()[k]) by {
                assert(texts(all@)[k] == old(self).order()[k]);
            }
        }
        stopped
    }
}


impl<F, H: ChildHandle> SupervisorState<F, H> {
    /// The ids of the children except `id`, in start order.
    fn ids_except(&self, id: &String) -> (r: Vec<String>)
        requires
            self.wf(),
        ensures
            texts(r@) == self.order().filter(other_id(id@)),
    {
        let ghost pred = other_id(id@);
        let mut out: Vec<String> = Vec::new();
        let mut k: usize = 0;
        while k < self.children.len()
            invariant
                k <= self.children.len(),
                pred == other_id(id@),
                texts(out@) == self.order().take(k as int).filter(pred),
            decreases self.children.len() - k,
        {
            proof {
                lemma_take_succ_filter(self.order(), k as int, pred);
                assert(self.order()[k as int] == self.children@[k as int].spec_id());
            }
            if self.children[k].spec.id != *id {
                let ghost before = out@;
                out.push(self.children[k].spec.id.clone());
                proof {
                    assert(texts(out@) =~= texts(before).push(self.order()[k as int]));
                }
            }
            k = k + 1;
        }
        proof {
            lemma_take_full(self.order());
        }
        out
    }

    /// The ids of the children from position `from` on, in start order.
    fn ids_from(&self, from: usize) -> (r: Vec<String>)
        requires
            from <= self.infos().len(),
        ensures
            texts(r@) == self.order().skip(from as int),
    {
        let mut out: Vec<String> = Vec::new();
        let mut k: usize = from;
        while k < self.children.len()
            invariant
                from <= k <= self.children.len(),
                texts(out@) == self.order().subrange(from as int, k as int),
            decreases self.children.len() - k,
        {
            let ghost before = out@;
            out.push(self.children[k].spec.id.clone());
            proof {
                assert(self.order()[k as int] == self.children@[k as int].spec_id());
                assert(texts(out@) =~= texts(before).push(self.order()[k as int]));
                assert(texts(out@) =~= self.order().subrange(from as int, k + 1));
            }
            k = k + 1;
        }
        proof {
            assert(self.order().subrange(from as int, self.order().len() as int) =~= self.order().skip(from as int));
        }
        out
    }

    /// Handle the exit of the child process `pid` with `reason`.
    ///
    /// Ignored while shutting down and for unknown pids. Otherwise the child
    /// is marked as not running (its monitor forgotten) and, if its restart
    /// policy asks for it, the children to restart are returned: the child
    /// alone (one-for-one), all children after terminating the others
    /// (one-for-all), or the child and those started after it after
    /// terminating the latter (rest-for-one). The pids asked to shut down
    /// come back too, in the order they were asked: last started first.
    pub fn handle_child_exit(&mut self, pid: Pid, reason: &ExitReason) -> (r: Result<(Vec<String>, Vec<Pid>), SupervisorError>)
        requires
            old(self).wf(),
        ensures
            final(self).wf(),
            r is Ok,
            old(self).is_shutting_down() || !old(self).pid_map().contains_key(pid.id) ==> r->Ok_0.0@.len() == 0 && r->Ok_0.1@.len() == 0
                && final(self).infos() == old(self).infos() && final(self).pid_map() == old(self).pid_map(),
            !old(self).is_shutting_down() && old(self).pid_map().contains_key(pid.id) ==> {
                let id = old(self).pid_map()[pid.id]@;
                let i = old(self).index_of(id);
                let order = old(self).order();
                let cleared = old(self).infos().update(i, old(self).infos()[i].cleared());
                let restart = should_restart(old(self).infos()[i].spec_spec().spec_restart(), *reason);
                let stop = if restart { terminate_set(order, old(self).strategy(), id, i) } else { Seq::empty() };
                let stopped = stop.filter_map(running_pid_of(cleared));
                &&& r->Ok_0.1@ == stopped
                &&& texts(r->Ok_0.0@) == (if restart { restart_set(order, old(self).strategy(), id, i) } else { Seq::empty() })
                &&& final(self).infos().len() == old(self).infos().len()
                &&& forall|k: int| 0 <= k < old(self).infos().len() ==> #[trigger] final(self).infos()[k] == (if stop.contains(order[k]) {
                    cleared[k].without_handle()
                } else {
                    cleared[k]
                })
                &&& final(self).pid_map() == old(self).pid_map().remove(pid.id).remove_keys(pid_numbers(stopped))
            },
            final(self).order() == old(self).order(),
            final(self).infos().len() == old(self).infos().len(),
            forall|k: int| 0 <= k < old(self).infos().len() ==> (#[trigger] final(self).infos()[k]).spec_restart_count()
                == old(self).infos()[k].spec_restart_count(),
            final(self).tracker() == old(self).tracker(),
            final(self).is_shutting_down() == old(self).is_shutting_down(),
            final(self).strategy() == old(self).strategy(),
    {
        if self.shutting_down {
            return Ok((Vec::new(), Vec::new()));
        }
        let child_id = match self.pid_to_child.remove(&pid.id) {
            Some(id) => id,
            None => {
                return Ok((Vec::new(), Vec::new()));
            },
        };
        let ghost id = child_id@;
        let i = match self.find(&child_id) {
            Some(i) => i,
            None => {
                proof {
                    assert(old(self).order().contains(id));
                }
                return Ok((Vec::new(), Vec::new()));
            },
        };
        proof {
            lemma_index_unique(old(self), i as int);
        }
        let len = self.children.len();
        assert(i < len);
        let next: usize = i + 1;
        let mut info = self.children.remove(i);
        info.handle = None;
        info.monitor_ref = None;
        let restart = match info.spec.restart {
            RestartType::Permanent => true,
            RestartType::Transient => !reason.is_normal(),
            RestartType::Temporary => false,
        };
        self.children.insert(i, info);
        let ghost cleared = old(self).infos().update(i as int, old(self).infos()[i as int].cleared());
        proof {
            assert(self.infos() =~= cleared);
            assert(self.order() =~= old(self).order());
            assert forall|q: u64| #[trigger] self.pid_map().contains_key(q) implies {
                let cid = self.pid_map()[q]@;
                &&& self.order().contains(cid)
                &&& self.infos()[self.index_of(cid)].running() == Some(Pid { id: q })
            } by {
                let cid = old(self).pid_map()[q]@;
                let j = old(self).index_of(cid);
                if j == i as int {
                    assert(old(self).infos()[j].running() == Some(Pid { id: q }));
                    assert(old(self).infos()[j].running() == Some(pid));
                }
            }
        }
        if !restart {
            proof {
                assert forall|k: int| 0 <= k < old(self).infos().len() implies #[trigger] self.infos()[k] == cleared[k] by {}
                assert(Seq::<Seq<char>>::empty().filter_map(running_pid_of(cleared)) =~= Seq::<Pid>::empty());
                assert(pid_numbers(Seq::<Pid>::empty()) =~= Set::<u64>::empty());
                assert(self.pid_map().remove_keys(Set::<u64>::empty()) =~= self.pid_map());
            }
            return Ok((Vec::new(), Vec::new()));
        }
        let ghost mid_map = self.pid_map();
        match self.spec.strategy {
            RestartStrategy::OneForOne => {
                let mut out: Vec<String> = Vec::new();
                out.push(child_id);
                proof {
                    assert(texts(out@) =~= seq![id]);
                    assert(Seq::<Seq<char>>::empty().filter_map(running_pid_of(cleared)) =~= Seq::<Pid>::empty());
                    assert(pid_numbers(Seq::<Pid>::empty()) =~= Set::<u64>::empty());
                    assert(self.pid_map().remove_keys(Set::<u64>::empty()) =~= self.pid_map());
                }
                Ok((out, Vec::new()))
            },
            RestartStrategy::OneForAll => {
                let others = self.ids_except(&child_id);
                proof {
                    crate::seqs::lemma_filter_no_duplicates(self.order(), other_id(id));
                }
                let ghost before = self.infos();
                let stopped = self.terminate_children(&others);
                proof {
                    assert(texts(others@).reverse() == terminate_set(old(self).order(), old(self).strategy(), id, i as int));
                    assert forall|x: Seq<char>| #[trigger] texts(others@).contains(x) <==> terminate_set(
                        old(self).order(), old(self).strategy(), id, i as int).contains(x) by {
                        let t = texts(others@);
                        if t.contains(x) {
                            let q = choose|q: int| 0 <= q < t.len() && t[q] == x;
                            assert(t.reverse()[t.len() - 1 - q] == x);
                        }
                        if t.reverse().contains(x) {
                            let q = choose|q: int| 0 <= q < t.len() && t.reverse()[q] == x;
                            assert(t[t.len() - 1 - q] == x);
                        }
                    }
                }
                let all = self.which_children();
                Ok((all, stopped))
            },
            RestartStrategy::RestForOne => {
                let affected = self.ids_from(i);
                let later = self.ids_from(next);
                proof {
                    assert forall|a: int, b: int| 0 <= a < texts(later@).len() && 0 <= b < texts(later@).len() && a != b
                        implies texts(later@)[a] != texts(later@)[b] by {
                        assert(texts(later@)[a] == self.order()[a + i + 1]);
                        assert(texts(later@)[b] == self.order()[b + i + 1]);
                    }
                }
                let stopped = self.terminate_children(&later);
                proof {
                    assert(texts(later@).reverse() == terminate_set(old(self).order(), old(self).strategy(), id, i as int));
                    assert forall|x: Seq<char>| #[trigger] texts(later@).contains(x) <==> terminate_set(
                        old(self).order(), old(self).strategy(), id, i as int).contains(x) by {
                        let t = texts(later@);
                        if t.contains(x) {
                            let q = choose|q: int| 0 <= q < t.len() && t[q] == x;
                            assert(t.reverse()[t.len() - 1 - q] == x);
                        }
                        if t.reverse().contains(x) {
                            let q = choose|q: int| 0 <= q < t.len() && t.reverse()[q] == x;
                            assert(t[t.len() - 1 - q] == x);
                        }
                    }
                }
                Ok((affected, stopped))
            },
        }
    }
}


/// Information about a dynamically started child.
pub struct DynamicChildInfo<F, H> {
    /// The child's specification (for restart).
    spec: ChildSpec<F>,
    /// The child's current handle.
    handle: H,
    /// Number of restarts for this child.
    restart_count: u32,
}

impl<F, H> DynamicChildInfo<F, H> {
    pub closed spec fn spec_spec(&self) -> ChildSpec<F> {
        self.spec
    }

    pub closed spec fn spec_restart_count(&self) -> u32 {
        self.restart_count
    }

    /// The handle of the child's running instance.
    pub closed spec fn spec_handle(&self) -> H {
        self.handle
    }
}

/// The handle `h` answers `pid` when asked for its pid.
pub open spec fn answers_pid<H: ChildHandle>(h: &H, pid: Pid) -> bool {
    call_ensures(H::pid, (h,), pid)
}

/// The handle `h` was asked to shut down.
pub open spec fn asked_to_shut_down<H: ChildHandle>(h: &H) -> bool {
    call_ensures(H::shutdown, (h,), ())
}

/// Ask `h` for its pid.
fn pid_of_handle<H: ChildHandle>(h: &H) -> (p: Pid)
    ensures
        answers_pid(h, p),
{
    let pid = H::pid;
    pid(h)
}

/// Ask `h` to shut down.
fn shut_down_handle<H: ChildHandle>(h: &H)
    ensures
        asked_to_shut_down(h),
{
    let shutdown = H::shutdown;
    shutdown(h)
}

/// The state of a dynamic supervisor: children by pid, restart intensity,
/// and whether it is shutting down.
pub struct DynamicSupervisorState<F, H> {
    /// The supervisor specification.
    spec: DynamicSupervisorSpec,
    /// Running children indexed by pid number.
    children: HashMap<u64, DynamicChildInfo<F, H>>,
    /// Restart intensity tracker.
    restart_tracker: RestartIntensityTracker,
    /// Whether we're shutting down.
    shutting_down: bool,
}

impl<F, H> DynamicSupervisorState<F, H> {
    pub closed spec fn kids(&self) -> Map<u64, DynamicChildInfo<F, H>> {
        self.children@
    }

    pub closed spec fn max_children(&self) -> Option<usize> {
        self.spec.max_children
    }

    pub closed spec fn tracker(&self) -> RestartIntensityTracker {
        self.restart_tracker
    }

    pub closed spec fn is_shutting_down(&self) -> bool {
        self.shutting_down
    }

    /// Restart times and the window are valid spans.
    pub open spec fn wf(&self) -> bool {
        &&& self.tracker().window().wf()
        &&& forall|i: int| 0 <= i < self.tracker().times().len() ==> (#[trigger] self.tracker().times()[i]).wf()
    }

    /// A state without children.
    pub fn new(spec: DynamicSupervisorSpec) -> (s: DynamicSupervisorState<F, H>)
        requires
            spec.max_seconds.wf(),
        ensures
            s.wf(),
            s.kids() == Map::<u64, DynamicChildInfo<F, H>>::empty(),
            s.max_children() == spec.max_children,
            s.spec_name() == spec.name,
            s.tracker().limit() == spec.max_restarts,
            s.tracker().window() == spec.max_seconds,
            s.tracker().times().len() == 0,
            !s.is_shutting_down(),
    {
        let restart_tracker = RestartIntensityTracker::new(spec.max_restarts, spec.max_seconds);
        DynamicSupervisorState { spec, children: HashMap::new(), restart_tracker, shutting_down: false }
    }

    /// Pids of all children (each once, in no particular order).
    pub fn which_children(&self) -> (r: Vec<Pid>)
        ensures
            forall|p: Pid| r@.contains(p) <==> self.kids().contains_key(p.id),
            r@.len() == self.kids().dom().len(),
    {
        let mut out: Vec<Pid> = Vec::new();
        let ghost all = self.children.keys().remaining();
        for k in it: self.children.keys()
            invariant
                it.seq() == all,
                out.len() == it.index(),
                forall|j: int| 0 <= j < out.len() ==> out@[j] == (Pid { id: *all[j] }),
        {
            out.push(Pid { id: *k });
        }
        proof {
            assert(all.unref().to_set() == self.kids().dom());
            assert forall|p: Pid| out@.contains(p) <==> self.kids().contains_key(p.id) by {
                if out@.contains(p) {
                    let j = choose|j: int| 0 <= j < out@.len() && out@[j] == p;
                    assert(all.unref()[j] == p.id);
                    assert(all.unref().contains(p.id));
                }
                if self.kids().contains_key(p.id) {
                    assert(all.unref().to_set().contains(p.id));
                    let j = choose|j: int| 0 <= j < all.unref().len() && all.unref()[j] == p.id;
                    assert(out@[j] == p);
                }
            }
        }
        out
    }

    /// Number of children.
    pub fn count_children(&self) -> (r: usize)
        ensures
            r == self.kids().dom().len(),
    {
        self.children.len()
    }
}

impl<F, H: ChildHandle> DynamicSupervisorState<F, H> {
    /// Every child is stored under the pid its handle answers.
    pub open spec fn handles_ok(&self) -> bool {
        forall|p: u64| #[trigger] self.kids().contains_key(p) ==> answers_pid(&self.kids()[p].spec_handle(), Pid { id: p })
    }

    /// Terminate the child `pid`: forget it and ask it to shut down. Fails
    /// with `ChildNotFound(pid)` for an unknown pid.
    pub fn terminate_child(&mut self, pid: Pid) -> (r: Result<(), DynamicSupervisorError>)
        requires
            old(self).wf(),
        ensures
            final(self).wf(),
            r is Err <==> !old(self).kids().contains_key(pid.id),
            r is Err ==> r == Err::<(), DynamicSupervisorError>(DynamicSupervisorError::ChildNotFound(pid)),
            final(self).kids() == old(self).kids().remove(pid.id),
            old(self).kids().contains_key(pid.id) ==> asked_to_shut_down(&old(self).kids()[pid.id].spec_handle()),
            old(self).handles_ok() ==> final(self).handles_ok(),
            final(self).tracker() == old(self).tracker(),
            final(self).is_shutting_down() == old(self).is_shutting_down(),
            final(self).max_children() == old(self).max_children(),
    {
        match self.children.remove(&pid.id) {
            Some(info) => {
                shut_down_handle(&info.handle);
                Ok(())
            },
            None => Err(DynamicSupervisorError::ChildNotFound(pid)),
        }
    }

    /// Begin shutdown: refuse further starts, forget every child and ask
    /// each to shut down. Returns their pids.
    pub fn shutdown(&mut self) -> (stopped: Vec<Pid>)
        requires
            old(self).wf(),
        ensures
            final(self).wf(),
            final(self).is_shutting_down(),
            final(self).kids() == Map::<u64, DynamicChildInfo<F, H>>::empty(),
            forall|p: Pid| stopped@.contains(p) <==> old(self).kids().contains_key(p.id),
            forall|p: u64| #[trigger] old(self).kids().contains_key(p) ==> asked_to_shut_down(&old(self).kids()[p].spec_handle()),
            final(self).handles_ok(),
    {
        self.shutting_down = true;
        let pids = self.which_children();
        let mut i: usize = 0;
        while i < pids.len()
            invariant
                i <= pids.len(),
                self.wf(),
                self.is_shutting_down(),
                forall|p: Pid| pids@.contains(p) <==> old(self).kids().contains_key(p.id),
                forall|q: u64| #[trigger] self.kids().contains_key(q) <==> old(self).kids().contains_key(q)
                    && !pids@.take(i as int).contains(Pid { id: q }),
                forall|q: u64| #[trigger] self.kids().contains_key(q) ==> self.kids()[q] == old(self).kids()[q],
                forall|q: u64| #[trigger] old(self).kids().contains_key(q) && !self.kids().contains_key(q)
                    ==> asked_to_shut_down(&old(self).kids()[q].spec_handle()),
            decreases pids.len() - i,
        {
            let p = pids[i];
            let ghost before = self.kids();
            match self.children.remove(&p.id) {
                Some(info) => shut_down_handle(&info.handle),
                None => {},
            }
            proof {
                assert(self.kids() == before.remove(p.id));
                assert(pids@.take(i + 1) =~= pids@.take(i as int).push(p));
                assert forall|q: u64| #[trigger] self.kids().contains_key(q) <==> old(self).kids().contains_key(q)
                    && !pids@.take(i + 1).contains(Pid { id: q }) by {
                    if self.kids().contains_key(q) {
                        assert(before.contains_key(q));
                        assert(q != p.id);
                        if pids@.take(i + 1).contains(Pid { id: q }) {
                            let k = choose|k: int| 0 <= k < i + 1 && #[trigger] pids@.take(i + 1)[k] == Pid { id: q };
                            if k < i {
                                assert(pids@.take(i as int)[k] == Pid { id: q });
                            }
                        }
                    }
                    if old(self).kids().contains_key(q) && !pids@.take(i + 1).contains(Pid { id: q }) {
                        assert(!pids@.take(i as int).contains(Pid { id: q })) by {
                            if pids@.take(i as int).contains(Pid { id: q }) {
                                let k = choose|k: int| 0 <= k < i && pids@.take(i as int)[k] == Pid { id: q };
                                assert(pids@.take(i + 1)[k] == Pid { id: q });
                            }
                        }
                        assert(before.contains_key(q));
                        if q == p.id {
                            assert(p == Pid { id: q });
                            assert(pids@.take(i + 1)[i as int] == p);
                        }
                    }
                }
            }
            i = i + 1;
        }
        proof {
            assert(pids@.take(pids.len() as int) =~= pids@);
            assert(self.kids() =~= Map::<u64, DynamicChildInfo<F, H>>::empty()) by {
                assert forall|q: u64| !self.kids().contains_key(q) by {
                    if self.kids().contains_key(q) {
                        assert(old(self).kids().contains_key(q));
                        assert(pids@.contains(Pid { id: q }));
                    }
                }
            }
        }
        pids
    }
}

impl<F: StartChild<H>, H: ChildHandle> DynamicSupervisorState<F, H> {
    /// Start a new child from `spec` and monitor it from `sup`. Refused with
    /// `ShuttingDown` while shutting down and with `MaxChildrenReached` when
    /// the child limit is reached.
    pub fn start_child<S: SystemMessageSender>(
        &mut self,
        spec: ChildSpec<F>,
        table: &mut ProcessTable<S>,
        sup: Pid,
    ) -> (r: Result<Pid, DynamicSupervisorError>)
        requires
            old(self).wf(),
            old(table).wf(),
            old(table).next_ref() < u64::MAX,
        ensures
            final(self).wf(),
            old(self).is_shutting_down() ==> r == Err::<Pid, DynamicSupervisorError>(DynamicSupervisorError::ShuttingDown)
                && final(self).kids() == old(self).kids() && *final(table) == *old(table),
            !old(self).is_shutting_down() && (old(self).max_children() matches Some(m) && old(self).kids().dom().len() >= m)
                ==> r == Err::<Pid, DynamicSupervisorError>(DynamicSupervisorError::MaxChildrenReached)
                && final(self).kids() == old(self).kids() && *final(table) == *old(table),
            !old(self).is_shutting_down() && !(old(self).max_children() matches Some(m) && old(self).kids().dom().len() >= m)
                ==> (r matches Ok(pid) && {
                &&& final(self).kids().contains_key(pid.id)
                &&& final(self).kids()[pid.id].spec_spec() == spec
                &&& final(self).kids()[pid.id].spec_restart_count() == 0
                &&& answers_pid(&final(self).kids()[pid.id].spec_handle(), pid)
                &&& final(self).kids() == old(self).kids().insert(pid.id, final(self).kids()[pid.id])
                &&& exists|m: Option<MonitorRef>| monitor_effect(*old(table), *final(table), sup, pid, m)
            }),
            old(self).handles_ok() ==> final(self).handles_ok(),
            final(self).tracker() == old(self).tracker(),
            final(self).is_shutting_down() == old(self).is_shutting_down(),
            final(self).max_children() == old(self).max_children(),
    {
        if self.shutting_down {
            return Err(DynamicSupervisorError::ShuttingDown);
        }
        match self.spec.max_children {
            Some(max) => {
                if self.children.len() >= max {
                    return Err(DynamicSupervisorError::MaxChildrenReached);
                }
            },
            None => {},
        }
        let handle = spec.start.start();
        let pid = pid_of_handle(&handle);
        let m = match process_table::monitor(table, sup, pid).0 {
            Ok(m) => Some(m),
            Err(_) => None,
        };
        self.children.insert(pid.id, DynamicChildInfo { spec, handle, restart_count: 0 });
        proof {
            assert(monitor_effect(*old(table), *table, sup, pid, m));
            assert(self.kids()[pid.id].spec_spec() == spec);
            assert(self.kids() =~= old(self).kids().insert(pid.id, self.kids()[pid.id]));
            assert(self.kids()[pid.id].spec_handle() == handle);
        }
        Ok(pid)
    }

    /// Handle the exit of child `pid` with `reason` as of `now`.
    ///
    /// The child is forgotten. Unless shutting down, a child whose restart
    /// policy asks for it is restarted (with its restart count raised)
    /// when the restart intensity allows, else `MaxRestartsExceeded` is
    /// returned.
    pub fn handle_child_exit<S: SystemMessageSender>(
        &mut self,
        pid: Pid,
        reason: &ExitReason,
        now: Span,
        table: &mut ProcessTable<S>,
        sup: Pid,
    ) -> (r: Result<(), DynamicSupervisorError>)
        requires
            old(self).wf(),
            old(table).wf(),
            old(table).next_ref() < u64::MAX,
            now.wf(),
            old(self).kids().contains_key(pid.id) ==> old(self).kids()[pid.id].spec_restart_count() < u32::MAX,
        ensures
            final(self).wf(),
            final(self).is_shutting_down() == old(self).is_shutting_down(),
            final(self).max_children() == old(self).max_children(),
            final(self).tracker().limit() == old(self).tracker().limit(),
            final(self).tracker().window() == old(self).tracker().window(),
            old(self).is_shutting_down() || !old(self).kids().contains_key(pid.id)
                || !should_restart(old(self).kids()[pid.id].spec_spec().spec_restart(), *reason) ==> r is Ok
                && final(self).kids() == old(self).kids().remove(pid.id) && final(self).tracker() == old(self).tracker()
                && *final(table) == *old(table),
            !old(self).is_shutting_down() && old(self).kids().contains_key(pid.id)
                && should_restart(old(self).kids()[pid.id].spec_spec().spec_restart(), *reason) ==> {
                let pruned = old(self).tracker().times().filter(still_counts(now, old(self).tracker().window()));
                let allowed = (pruned.len() as u32) < old(self).tracker().limit();
                let o = old(self).kids()[pid.id];
                &&& !allowed ==> r == Err::<(), DynamicSupervisorError>(DynamicSupervisorError::MaxRestartsExceeded)
                    && final(self).kids() == old(self).kids().remove(pid.id)
                    && final(self).tracker().times() == pruned && *final(table) == *old(table)
                &&& allowed ==> r is Ok && final(self).tracker().times() == pruned.push(now) && exists|new_pid: Pid| {
                    &&& final(self).kids() == old(self).kids().remove(pid.id).insert(new_pid.id, final(self).kids()[new_pid.id])
                    &&& final(self).kids()[new_pid.id].spec_spec() == o.spec_spec()
                    &&& final(self).kids()[new_pid.id].spec_restart_count() == o.spec_restart_count() + 1
                    &&& answers_pid(&final(self).kids()[new_pid.id].spec_handle(), new_pid)
                    &&& exists|m: Option<MonitorRef>| monitor_effect(*old(table), *final(table), sup, new_pid, m)
                }
            },
            old(self).handles_ok() ==> final(self).handles_ok(),
    {
        if self.shutting_down {
            self.children.remove(&pid.id);
            return Ok(());
        }
        let info = match self.children.remove(&pid.id) {
            Some(info) => info,
            None => {
                return Ok(());
            },
        };
        let restart = match info.spec.restart {
            RestartType::Permanent => true,
            RestartType::Transient => !reason.is_normal(),
            RestartType::Temporary => false,
        };
        if !restart {
            return Ok(());
        }
        if !self.restart_tracker.can_restart(now) {
            return Err(DynamicSupervisorError::MaxRestartsExceeded);
        }
        let new_handle = info.spec.start.start();
        let new_pid = pid_of_handle(&new_handle);
        let m = match process_table::monitor(table, sup, new_pid).0 {
            Ok(m) => Some(m),
            Err(_) => None,
        };
        let count = info.restart_count + 1;
        let ghost removed = self.kids();
        self.children.insert(new_pid.id, DynamicChildInfo { spec: info.spec, handle: new_handle, restart_count: count });
        self.restart_tracker.record_restart(now);
        proof {
            assert(removed == old(self).kids().remove(pid.id));
            assert(monitor_effect(*old(table), *table, sup, new_pid, m));
            assert(self.kids() =~= old(self).kids().remove(pid.id).insert(new_pid.id, self.kids()[new_pid.id]));
            assert(self.kids()[new_pid.id].spec_restart_count() == old(self).kids()[pid.id].spec_restart_count() + 1);
            assert(self.kids()[new_pid.id].spec_handle() == new_handle);
        }
        Ok(())
    }
}


/// The ids of a sequence of child specs.
pub open spec fn spec_ids<F>(specs: Seq<ChildSpec<F>>) -> Seq<Seq<char>> {
    specs.map_values(|c: ChildSpec<F>| c.spec_id())
}

impl<F, H> SupervisorState<F, H> {
    /// The children listed in the specification, in start order.
    pub closed spec fn spec_children(&self) -> Seq<ChildSpec<F>> {
        self.spec.children@
    }

    /// The name in the specification.
    pub closed spec fn spec_name(&self) -> Option<String> {
        self.spec.name
    }
}

impl<F: StartChild<H> + Clone, H: ChildHandle> SupervisorState<F, H> {
    /// Start the children listed in the specification, in order, each
    /// monitored from `sup`. Stops at the first child whose id is already
    /// taken, with `ChildAlreadyExists`.
    pub fn start_children<S: SystemMessageSender>(&mut self, table: &mut ProcessTable<S>, sup: Pid) -> (r: Result<(), SupervisorError>)
        requires
            old(self).wf(),
            old(table).wf(),
            old(table).next_ref() + old(self).spec_children().len() < u64::MAX,
        ensures
            final(self).wf(),
            r is Ok <==> (old(self).order() + spec_ids(old(self).spec_children())).no_duplicates(),
            r is Ok ==> final(self).order() == old(self).order() + spec_ids(old(self).spec_children()),
            r matches Err(e) ==> (e matches SupervisorError::ChildAlreadyExists(n) && (old(self).order() + spec_ids(
                old(self).spec_children(),
            )).contains(n@)),
            final(self).tracker() == old(self).tracker(),
            final(self).is_shutting_down() == old(self).is_shutting_down(),
            final(self).strategy() == old(self).strategy(),
            final(self).spec_children() == old(self).spec_children(),
            final(self).spec_name() == old(self).spec_name(),
            final(table).wf(),
            final(table).procs() == old(table).procs(),
    {
        let ghost ids = spec_ids(old(self).spec_children());
        let ghost base = old(self).order();
        let n = self.spec.children.len();
        let mut k: usize = 0;
        while k < n
            invariant
                n == self.spec.children@.len(),
                ids == spec_ids(self.spec.children@),
                ids == spec_ids(old(self).spec_children()),
                base == old(self).order(),
                k <= n,
                self.wf(),
                table.wf(),
                table.procs() == old(table).procs(),
                table.next_ref() <= old(table).next_ref() + k,
                old(table).next_ref() + n < u64::MAX,
                self.order() == base + ids.take(k as int),
                self.tracker() == old(self).tracker(),
                self.is_shutting_down() == old(self).is_shutting_down(),
                self.strategy() == old(self).strategy(),
                self.spec_children() == old(self).spec_children(),
                self.spec_name() == old(self).spec_name(),
            decreases n - k,
        {
            let child = self.spec.children[k].duplicate();
            let ghost child_id = child.spec_id();
            let ghost before = self.order();
            proof {
                assert(ids[k as int] == self.spec.children@[k as int].spec_id());
                assert(ids.take(k + 1) =~= ids.take(k as int).push(ids[k as int]));
            }
            let r = self.start_child_internal(child, table, sup);
            match r {
                Err(e) => {
                    proof {
                        assert(before.contains(ids[k as int]));
                        let q = choose|q: int| 0 <= q < before.len() && before[q] == ids[k as int];
                        let all = base + ids;
                        assert(all[q] == ids[k as int]);
                        assert(all[base.len() + k] == ids[k as int]);
                        assert(q != base.len() + k);
                        assert(all.contains(ids[k as int]));
                        assert(!all.no_duplicates());
                        assert(child_id == ids[k as int]);
                    }
                    return Err(e);
                },
                Ok(_) => {
                    proof {
                        assert(self.order() =~= before.push(ids[k as int]));
                    }
                },
            }
            k = k + 1;
        }
        proof {
            assert(ids.take(n as int) =~= ids);
        }
        Ok(())
    }
}

/// Messages that can be sent to a Supervisor via call().
pub enum SupervisorCall<F> {
    /// Start a new child dynamically.
    StartChild(ChildSpec<F>),
    /// Terminate a child by ID.
    TerminateChild(String),
    /// Restart a child by ID.
    RestartChild(String),
    /// Delete a child spec by ID.
    DeleteChild(String),
    /// Get list of child IDs.
    WhichChildren,
    /// Count children by type and state.
    CountChildren,
}

/// Messages that can be sent to a Supervisor via cast().
#[derive(Debug, Clone, Copy, PartialEq, Eq, Structural)]
pub enum SupervisorCast {
    /// No-op placeholder (supervisors mainly use calls).
    _Placeholder,
}

/// Response from Supervisor calls.
#[derive(Debug)]
pub enum SupervisorResponse {
    /// Child started successfully, returns new Pid.
    Started(Pid),
    /// Operation completed successfully.
    Completed,
    /// Error occurred.
    Error(SupervisorError),
    /// List of child IDs.
    Children(Vec<String>),
    /// Child counts.
    Counts(SupervisorCounts),
}

/// A Supervisor is a GenServer that manages child processes: it monitors
/// its children and restarts them according to its strategy when they
/// exit.
pub struct Supervisor<F, H> {
    state: SupervisorState<F, H>,
}

impl<F, H> Supervisor<F, H> {
    /// The supervisor's state.
    pub closed spec fn state(&self) -> SupervisorState<F, H> {
        self.state
    }

    /// The name the supervisor registers under, if any.
    pub closed spec fn spec_name(&self) -> Option<String> {
        self.state.spec_name()
    }

    /// Create a new Supervisor from a specification.
    pub fn new(spec: SupervisorSpec<F>) -> (s: Supervisor<F, H>)
        requires
            spec.max_seconds.wf(),
        ensures
            s.state().wf(),
            s.state().infos().len() == 0,
            s.state().spec_children() == spec.children@,
            s.spec_name() == spec.name,
            s.state().tracker().limit() == spec.max_restarts,
            s.state().tracker().window() == spec.max_seconds,
            s.state().tracker().times().len() == 0,
            !s.state().is_shutting_down(),
            s.state().strategy() == spec.strategy,
    {
        Supervisor { state: SupervisorState::new(spec) }
    }

    /// What the supervisor does on a cast: nothing.
    pub fn handle_cast(&mut self, message: SupervisorCast) -> (r: CastResponse)
        ensures
            r == CastResponse::NoReply,
            *final(self) == *old(self),
    {
        CastResponse::NoReply
    }
}

impl<F, H: ChildHandle> Supervisor<F, H> {
    /// Counts of the supervisor's children.
    pub fn count_children(&self) -> (c: SupervisorCounts)
        ensures
            c.specs == self.state().infos().len(),
            c.active <= self.state().infos().filter(|i: ChildInfo<F, H>| i.running() is Some).len(),
            counts_live_children(self.state().infos(), c.active),
            c.workers == self.state().infos().filter(|i: ChildInfo<F, H>| i.spec_spec().spec_child_type() == ChildType::Worker).len(),
            c.supervisors == self.state().infos().filter(|i: ChildInfo<F, H>| i.spec_spec().spec_child_type() == ChildType::Supervisor).len(),
    {
        self.state.count_children()
    }
}

impl<F, H: ChildHandle> Supervisor<F, H> {
    /// Shut down all children, last started first. Returns the pids asked
    /// to shut down.
    pub fn teardown(&mut self) -> (stopped: Vec<Pid>)
        requires
            old(self).state().wf(),
        ensures
            final(self).state().wf(),
            final(self).state().is_shutting_down(),
            stopped@ == old(self).state().order().reverse().filter_map(running_pid_of(old(self).state().infos())),
    {
        self.state.shutdown()
    }
}

impl<F: StartChild<H> + Clone, H: ChildHandle> Supervisor<F, H> {
    /// Initialize the supervisor running as `sup`: it traps exits, starts
    /// the children of its specification in order and, if it has a name,
    /// registers `entry` (what names it in `names`) under that name (a
    /// taken name is ignored). Fails with `ChildAlreadyExists` when two
    /// children share an id.
    pub fn init<S: SystemMessageSender, V>(
        &mut self,
        table: &mut ProcessTable<S>,
        names: &mut Registry<V>,
        sup: Pid,
        entry: V,
    ) -> (r: Result<(), SupervisorError>)
        requires
            old(self).state().wf(),
            old(table).wf(),
            old(names).wf(),
            old(table).next_ref() + old(self).state().spec_children().len() < u64::MAX,
        ensures
            final(self).state().wf(),
            final(table).wf(),
            final(names).wf(),
            old(table).registered(sup) ==> final(table).registered(sup) && final(table).procs()[sup.id].trap_exit,
            r is Ok <==> (old(self).state().order() + spec_ids(old(self).state().spec_children())).no_duplicates(),
            r is Ok ==> final(self).state().order() == old(self).state().order() + spec_ids(
                old(self).state().spec_children(),
            ),
            r is Ok ==> final(names).view() == (match old(self).spec_name() {
                Some(n) => if old(names).has(n@) { old(names).view() } else { old(names).view().push((n@, entry)) },
                None => old(names).view(),
            }),
            r is Err ==> final(names).view() == old(names).view(),
    {
        process_table::set_trap_exit(table, sup, true);
        let ghost after_trap = *table;
        let r = self.state.start_children(table, sup);
        proof {
            assert(after_trap.registered(sup) ==> after_trap.procs()[sup.id].trap_exit);
        }
        match r {
            Err(e) => Err(e),
            Ok(()) => {
                match &self.state.spec.name {
                    Some(name) => {
                        let _ = register(names, name.as_str(), entry);
                    },
                    None => {},
                }
                Ok(())
            },
        }
    }
}

impl<F: StartChild<H>, H: ChildHandle> Supervisor<F, H> {
    /// Answer a call as of `now`, the supervisor running as `sup`. The
    /// supervisor always replies and keeps running; each request is
    /// carried out by the state operation of the same name.
    pub fn handle_call<S: SystemMessageSender>(
        &mut self,
        message: SupervisorCall<F>,
        now: Span,
        table: &mut ProcessTable<S>,
        sup: Pid,
    ) -> (r: CallResponse<SupervisorResponse>)
        requires
            old(self).state().wf(),
            old(table).wf(),
            old(table).next_ref() < u64::MAX,
            now.wf(),
            forall|k: int| 0 <= k < old(self).state().infos().len() ==> #[trigger] old(self).state().infos()[k].spec_restart_count() < u32::MAX,
        ensures
            final(self).state().wf(),
            final(table).wf(),
            r is Reply,
            message is WhichChildren ==> (r matches CallResponse::Reply(SupervisorResponse::Children(v)) && texts(v@)
                == old(self).state().order() && final(self).state() == old(self).state() && *final(table) == *old(table)),
            message is CountChildren ==> (r matches CallResponse::Reply(SupervisorResponse::Counts(c)) && c.specs
                == old(self).state().infos().len() && final(self).state() == old(self).state() && *final(table) == *old(table)
                && c.active <= old(self).state().infos().filter(|i: ChildInfo<F, H>| i.running() is Some).len()
                && counts_live_children(old(self).state().infos(), c.active)
                && c.workers == old(self).state().infos().filter(
                    |i: ChildInfo<F, H>| i.spec_spec().spec_child_type() == ChildType::Worker,
                ).len()
                && c.supervisors == old(self).state().infos().filter(
                    |i: ChildInfo<F, H>| i.spec_spec().spec_child_type() == ChildType::Supervisor,
                ).len()),
            message matches SupervisorCall::TerminateChild(id) ==> *final(table) == *old(table)
                && if old(self).state().order().contains(id@) {
                r matches CallResponse::Reply(SupervisorResponse::Completed) && {
                    let i = old(self).state().index_of(id@);
                    final(self).state().infos() == old(self).state().infos().update(i, old(self).state().infos()[i].without_handle())
                }
            } else {
                r matches CallResponse::Reply(SupervisorResponse::Error(SupervisorError::ChildNotFound(n))) && n@ == id@
            },
            message matches SupervisorCall::DeleteChild(id) ==> *final(table) == *old(table)
                && if old(self).state().order().contains(id@) {
                r matches CallResponse::Reply(SupervisorResponse::Completed) && final(self).state().order()
                    == old(self).state().order().remove(old(self).state().index_of(id@))
            } else {
                r matches CallResponse::Reply(SupervisorResponse::Error(SupervisorError::ChildNotFound(n))) && n@ == id@
            },
            message matches SupervisorCall::StartChild(spec) ==> if old(self).state().is_shutting_down() {
                r matches CallResponse::Reply(SupervisorResponse::Error(SupervisorError::ShuttingDown))
            } else if old(self).state().order().contains(spec.spec_id()) {
                r matches CallResponse::Reply(SupervisorResponse::Error(SupervisorError::ChildAlreadyExists(n)))
                    && n@ == spec.spec_id()
            } else {
                r matches CallResponse::Reply(SupervisorResponse::Started(pid)) && final(self).state().order()
                    == old(self).state().order().push(spec.spec_id()) && final(self).state().infos().last().running()
                    == Some(pid)
            },
            message matches SupervisorCall::RestartChild(id) ==> {
                let t = old(self).state().tracker();
                let allowed = (t.times().filter(still_counts(now, t.window())).len() as u32) < t.limit();
                if old(self).state().is_shutting_down() {
                    r matches CallResponse::Reply(SupervisorResponse::Error(SupervisorError::ShuttingDown))
                } else if !allowed {
                    r matches CallResponse::Reply(SupervisorResponse::Error(SupervisorError::MaxRestartsExceeded))
                } else if !old(self).state().order().contains(id@) {
                    r matches CallResponse::Reply(SupervisorResponse::Error(SupervisorError::ChildNotFound(n))) && n@ == id@
                } else {
                    r matches CallResponse::Reply(SupervisorResponse::Started(pid)) && {
                        let s0 = old(self).state();
                        let s = final(self).state();
                        let i = s0.index_of(id@);
                        &&& s.infos()[i].running() == Some(pid)
                        &&& s.infos()[i].spec_spec() == s0.infos()[i].spec_spec()
                        &&& s.infos()[i].spec_restart_count() == s0.infos()[i].spec_restart_count() + 1
                        &&& s.infos().len() == s0.infos().len()
                        &&& forall|k: int| 0 <= k < s0.infos().len() && k != i ==> #[trigger] s.infos()[k] == s0.infos()[k]
                        &&& s.tracker().times() == t.times().filter(still_counts(now, t.window())).push(now)
                        &&& s.pid_map() == (match s0.infos()[i].running() {
                            Some(p) => s0.pid_map().remove(p.id),
                            None => s0.pid_map(),
                        }).insert(pid.id, s.pid_map()[pid.id])
                        &&& s.pid_map()[pid.id]@ == id@
                    }
                }
            },
    {
        let response = match message {
            SupervisorCall::StartChild(spec) => match self.state.start_child(spec, table, sup) {
                Ok(pid) => SupervisorResponse::Started(pid),
                Err(e) => SupervisorResponse::Error(e),
            },
            SupervisorCall::TerminateChild(id) => match self.state.terminate_child(id.as_str()) {
                Ok(()) => SupervisorResponse::Completed,
                Err(e) => SupervisorResponse::Error(e),
            },
            SupervisorCall::RestartChild(id) => match self.state.restart_child(id.as_str(), now, table, sup) {
                Ok(pid) => SupervisorResponse::Started(pid),
                Err(e) => SupervisorResponse::Error(e),
            },
            SupervisorCall::DeleteChild(id) => match self.state.delete_child(id.as_str()) {
                Ok(()) => SupervisorResponse::Completed,
                Err(e) => SupervisorResponse::Error(e),
            },
            SupervisorCall::WhichChildren => SupervisorResponse::Children(self.state.which_children()),
            SupervisorCall::CountChildren => SupervisorResponse::Counts(self.state.count_children()),
        };
        CallResponse::Reply(response)
    }
}

/// The exiting process and its reason, for the system messages that
/// report an exit.
pub open spec fn exit_of(message: SystemMessage) -> Option<(Pid, ExitReason)> {
    match message {
        SystemMessage::Down { pid, reason, .. } => Some((pid, reason)),
        SystemMessage::Exit { pid, reason } => Some((pid, reason)),
        SystemMessage::Timeout { .. } => None,
    }
}

/// The children a supervisor in state `s` restarts when the process `pid`
/// exits with `reason`.
pub open spec fn restarts_for<F, H>(s: SupervisorState<F, H>, pid: Pid, reason: ExitReason) -> Seq<Seq<char>> {
    if s.is_shutting_down() || !s.pid_map().contains_key(pid.id) {
        Seq::empty()
    } else {
        let id = s.pid_map()[pid.id]@;
        let i = s.index_of(id);
        if should_restart(s.infos()[i].spec_spec().spec_restart(), reason) {
            restart_set(s.order(), s.strategy(), id, i)
        } else {
            Seq::empty()
        }
    }
}

/// Two states with the same start order find each child at the same place.
proof fn lemma_index_of_same_order<F, H>(a: SupervisorState<F, H>, b: SupervisorState<F, H>, id: Seq<char>)
    requires
        a.order() == b.order(),
    ensures
        a.index_of(id) == b.index_of(id),
{
}

impl<F: StartChild<H>, H: ChildHandle> Supervisor<F, H> {
    /// Handle a system message as of `now`, the supervisor running as
    /// `sup`. An exit of a child (reported by a DOWN or an EXIT) is handed
    /// to the state, and the children it asks for are restarted in order;
    /// when the restart intensity is exhausted the supervisor stops, other
    /// restart failures are passed over. Timeouts are ignored.
    pub fn handle_info<S: SystemMessageSender>(
        &mut self,
        message: SystemMessage,
        now: Span,
        table: &mut ProcessTable<S>,
        sup: Pid,
    ) -> (r: InfoResponse)
        requires
            old(self).state().wf(),
            old(table).wf(),
            now.wf(),
            old(table).next_ref() + old(self).state().infos().len() < u64::MAX,
            forall|k: int| 0 <= k < old(self).state().infos().len() ==> #[trigger] old(self).state().infos()[k].spec_restart_count()
                + old(self).state().infos().len() < u32::MAX,
        ensures
            final(self).state().wf(),
            final(table).wf(),
            exit_of(message) is None ==> r == InfoResponse::NoReply && final(self).state() == old(self).state()
                && *final(table) == *old(table),
            exit_of(message) matches Some((pid, reason)) ==> {
                let s0 = old(self).state();
                let todo = restarts_for(s0, pid, reason);
                let t = s0.tracker();
                let s = final(self).state();
                &&& s.order() == s0.order()
                &&& todo.len() == 0 ==> r == InfoResponse::NoReply && *final(table) == *old(table)
                &&& (r == InfoResponse::Stop) == (exists|k: nat| k < todo.len() && #[trigger] refuses_restart(
                    t.times(),
                    t.limit(),
                    t.window(),
                    now,
                    k,
                ))
                &&& r == InfoResponse::NoReply && todo.len() > 0 ==> {
                    &&& s.tracker().times() == restarts_after(t.times(), t.window(), now, todo.len())
                    &&& forall|k: int| 0 <= k < s0.infos().len() ==> if todo.contains(s0.order()[k]) {
                        &&& (#[trigger] s.infos()[k]).running() is Some
                        &&& s.infos()[k].spec_spec() == s0.infos()[k].spec_spec()
                        &&& s.infos()[k].spec_restart_count() == s0.infos()[k].spec_restart_count() + 1
                    } else {
                        s.infos()[k] == s0.infos()[k]
                    }
                }
            },
    {
        let (pid, reason) = match message {
            SystemMessage::Down { pid, reason, .. } => (pid, reason),
            SystemMessage::Exit { pid, reason } => (pid, reason),
            SystemMessage::Timeout { .. } => {
                return InfoResponse::NoReply;
            },
        };
        let ghost s0 = self.state;
        let exited = self.state.handle_child_exit(pid, &reason);
        let to_restart = match exited {
            Ok((v, _)) => v,
            Err(_) => Vec::new(),
        };
        let ghost todo = restarts_for(s0, pid, reason);
        let ghost s1 = self.state;
        let ghost t0 = *table;
        let ghost n = s0.infos().len();
        proof {
            assert(texts(to_restart@) == todo);
            assert forall|q: int| 0 <= q < todo.len() implies s1.order().contains(#[trigger] todo[q]) by {
                let id = s0.pid_map()[pid.id]@;
                let i = s0.index_of(id);
                assert(s0.order().contains(id));
                if s0.strategy() == RestartStrategy::RestForOne {
                    assert(todo[q] == s0.order()[i + q]);
                } else if s0.strategy() == RestartStrategy::OneForAll {
                    assert(todo[q] == s0.order()[q]);
                }
            }
            assert(todo.len() <= n);
            if todo.len() > 0 {
                let id = s0.pid_map()[pid.id]@;
                let i = s0.index_of(id);
                assert(s0.order().contains(id));
                assert(s0.order()[i] == id);
                assert(todo.contains(id)) by {
                    if s0.strategy() == RestartStrategy::RestForOne {
                        assert(todo[0] == id);
                    } else if s0.strategy() == RestartStrategy::OneForAll {
                        assert(todo[i] == id);
                    } else {
                        assert(todo[0] == id);
                    }
                }
                assert(todo.no_duplicates()) by {
                    if s0.strategy() == RestartStrategy::RestForOne {
                        assert forall|a: int, b: int| 0 <= a < todo.len() && 0 <= b < todo.len() && a != b
                            implies todo[a] != todo[b] by {
                            assert(todo[a] == s0.order()[i + a]);
                            assert(todo[b] == s0.order()[i + b]);
                        }
                    }
                }
                let order = s0.order();
                let stop = terminate_set(order, s0.strategy(), id, i);
                assert forall|k: int| 0 <= k < n implies {
                    &&& (#[trigger] s1.infos()[k]).spec_spec() == s0.infos()[k].spec_spec()
                    &&& !todo.contains(order[k]) ==> s1.infos()[k] == s0.infos()[k]
                } by {
                    if !todo.contains(order[k]) {
                        assert(k != i);
                        if stop.contains(order[k]) {
                            law_stopped_children_are_restarted(order, s0.strategy(), id, i, order[k]);
                        }
                    }
                }
            }
        }
        let mut j: usize = 0;
        while j < to_restart.len()
            invariant
                j <= to_restart.len(),
                texts(to_restart@) == todo,
                todo.len() <= n,
                n == s1.infos().len(),
                forall|q: int| 0 <= q < todo.len() ==> s1.order().contains(#[trigger] todo[q]),
                self.state.wf(),
                table.wf(),
                self.state.order() == s1.order(),
                s1.order() == s0.order(),
                s0 == old(self).state(),
                t0 == *old(table),
                exit_of(message) == Some((pid, reason)),
                todo == restarts_for(s0, pid, reason),
                j == 0 ==> *table == t0,
                self.state.infos().len() == n,
                todo.len() > 0 ==> !self.state.is_shutting_down(),
                self.state.tracker().limit() == s1.tracker().limit(),
                now.wf(),
                table.next_ref() <= t0.next_ref() + j,
                t0.next_ref() + n < u64::MAX,
                forall|k: int| 0 <= k < n ==> #[trigger] s1.infos()[k].spec_restart_count() + n < u32::MAX,
                todo.len() > 0 ==> todo.no_duplicates(),
                s1.order().no_duplicates(),
                s1.tracker() == s0.tracker(),
                self.state.tracker().times() == restarts_after(s1.tracker().times(), s1.tracker().window(), now, j as nat),
                self.state.tracker().window() == s1.tracker().window(),
                forall|k: nat| k < j ==> !#[trigger] refuses_restart(
                    s1.tracker().times(),
                    s1.tracker().limit(),
                    s1.tracker().window(),
                    now,
                    k,
                ),
                forall|k: int| 0 <= k < n ==> if todo.take(j as int).contains(s1.order()[k]) {
                    &&& (#[trigger] self.state.infos()[k]).running() is Some
                    &&& self.state.infos()[k].spec_spec() == s1.infos()[k].spec_spec()
                    &&& self.state.infos()[k].spec_restart_count() == s1.infos()[k].spec_restart_count() + 1
                } else {
                    self.state.infos()[k] == s1.infos()[k]
                },
            decreases to_restart.len() - j,
        {
            let ghost before = self.state;
            let ghost id = todo[j as int];
            proof {
                assert(to_restart@[j as int]@ == id);
                assert(s1.order().contains(id));
            }
            proof {
                assert forall|k: int| 0 <= k < n implies #[trigger] self.state.infos()[k].spec_restart_count() < u32::MAX by {
                    if todo.take(j as int).contains(s1.order()[k]) {
                    } else {
                    }
                }
            }
            let step = self.state.restart_child(to_restart[j].as_str(), now, table, sup);
            match step {
                Err(SupervisorError::MaxRestartsExceeded) => {
                    proof {
                        assert(refuses_restart(s1.tracker().times(), s1.tracker().limit(), s1.tracker().window(), now, j as nat));
                        assert(j < todo.len());
                    }
                    return InfoResponse::Stop;
                },
                _ => {},
            }
            proof {
                let i = before.index_of(id);
                assert(!refuses_restart(s1.tracker().times(), s1.tracker().limit(), s1.tracker().window(), now, j as nat));
                assert(self.state.tracker().times() == restarts_after(s1.tracker().times(), s1.tracker().window(), now, (j + 1) as nat));
                assert(self.state.order() =~= before.order()) by {
                    assert forall|k: int| 0 <= k < n implies self.state.order()[k] == before.order()[k] by {
                        if k != i {
                            assert(self.state.infos()[k] == before.infos()[k]);
                        }
                    }
                }
                lemma_index_unique(&before, i);
                assert(before.order()[i] == id);
                assert(!todo.take(j as int).contains(id)) by {
                    if todo.take(j as int).contains(id) {
                        let tj = todo.take(j as int);
                        let q = choose|q: int| 0 <= q < tj.len() && tj[q] == id;
                        assert(todo[q] == todo[j as int]);
                    }
                }
                let tj = todo.take(j as int);
                let tj1 = todo.take(j + 1);
                assert forall|k: int| 0 <= k < n implies (tj1.contains(#[trigger] s1.order()[k])
                    <==> (tj.contains(s1.order()[k]) || k == i)) by {
                    let x = s1.order()[k];
                    if k == i {
                        assert(tj1[j as int] == x);
                    }
                    if tj.contains(x) {
                        let q = choose|q: int| 0 <= q < tj.len() && tj[q] == x;
                        assert(tj1[q] == x);
                    }
                    if tj1.contains(x) {
                        let q = choose|q: int| 0 <= q < tj1.len() && tj1[q] == x;
                        if q < j {
                            assert(tj[q] == x);
                        } else {
                            assert(x == id);
                            if k != i {
                                assert(before.order()[k] == before.order()[i]);
                            }
                        }
                    }
                }
            }
            j = j + 1;
        }
        proof {
            assert(todo.take(todo.len() as int) =~= todo);
        }
        InfoResponse::NoReply
    }
}

/// Messages that can be sent to a DynamicSupervisor via call().
pub enum DynamicSupervisorCall<F> {
    /// Start a new child. Returns the child's Pid.
    StartChild(ChildSpec<F>),
    /// Terminate a child by Pid.
    TerminateChild(Pid),
    /// Get list of all child Pids.
    WhichChildren,
    /// Count children.
    CountChildren,
}

/// Messages that can be sent to a DynamicSupervisor via cast().
#[derive(Debug, Clone, Copy, PartialEq, Eq, Structural)]
pub enum DynamicSupervisorCast {
    /// Placeholder - dynamic supervisors mainly use calls.
    _Placeholder,
}

/// Response from DynamicSupervisor calls.
#[derive(Debug)]
pub enum DynamicSupervisorResponse {
    /// Child started successfully.
    Started(Pid),
    /// Operation completed successfully.
    Completed,
    /// Error occurred.
    Error(DynamicSupervisorError),
    /// List of child Pids.
    Children(Vec<Pid>),
    /// Child count.
    Count(usize),
}

impl<F, H> DynamicSupervisorState<F, H> {
    /// The name in the specification.
    pub closed spec fn spec_name(&self) -> Option<String> {
        self.spec.name
    }
}

/// A supervisor of children started on demand, all alike: each child is
/// restarted on its own when its policy asks for it.
pub struct DynamicSupervisor<F, H> {
    state: DynamicSupervisorState<F, H>,
}

impl<F, H> DynamicSupervisor<F, H> {
    /// The supervisor's state.
    pub closed spec fn state(&self) -> DynamicSupervisorState<F, H> {
        self.state
    }

    /// Create a new DynamicSupervisor.
    pub fn new(spec: DynamicSupervisorSpec) -> (s: DynamicSupervisor<F, H>)
        requires
            spec.max_seconds.wf(),
        ensures
            s.state().wf(),
            s.state().kids() == Map::<u64, DynamicChildInfo<F, H>>::empty(),
            s.state().max_children() == spec.max_children,
            s.state().spec_name() == spec.name,
            s.state().tracker().limit() == spec.max_restarts,
            s.state().tracker().window() == spec.max_seconds,
            s.state().tracker().times().len() == 0,
            !s.state().is_shutting_down(),
    {
        DynamicSupervisor { state: DynamicSupervisorState::new(spec) }
    }

    /// Initialize the supervisor running as `sup`: it traps exits and, if
    /// it has a name, registers `entry` (what names it in `names`) under
    /// that name (a taken name is ignored).
    pub fn init<S, V>(&self, table: &mut ProcessTable<S>, names: &mut Registry<V>, sup: Pid, entry: V)
        requires
            old(table).wf(),
            old(names).wf(),
        ensures
            final(table).wf(),
            final(names).wf(),
            old(table).registered(sup) ==> final(table).registered(sup) && final(table).procs()[sup.id].trap_exit,
            final(table).link_halves() == old(table).link_halves(),
            final(table).monitor_entries() == old(table).monitor_entries(),
            final(names).view() == (match self.state().spec_name() {
                Some(n) => if old(names).has(n@) { old(names).view() } else { old(names).view().push((n@, entry)) },
                None => old(names).view(),
            }),
    {
        process_table::set_trap_exit(table, sup, true);
        match &self.state.spec.name {
            Some(name) => {
                let _ = register(names, name.as_str(), entry);
            },
            None => {},
        }
    }

    /// What the supervisor does on a cast: nothing.
    pub fn handle_cast(&mut self, message: DynamicSupervisorCast) -> (r: CastResponse)
        ensures
            r == CastResponse::NoReply,
            *final(self) == *old(self),
    {
        CastResponse::NoReply
    }
}

impl<F, H: ChildHandle> DynamicSupervisor<F, H> {
    /// Shut down all children. Returns the pids asked to shut down.
    pub fn teardown(&mut self) -> (stopped: Vec<Pid>)
        requires
            old(self).state().wf(),
        ensures
            final(self).state().wf(),
            final(self).state().is_shutting_down(),
            final(self).state().kids() == Map::<u64, DynamicChildInfo<F, H>>::empty(),
            forall|p: Pid| stopped@.contains(p) <==> old(self).state().kids().contains_key(p.id),
            forall|p: u64| #[trigger] old(self).state().kids().contains_key(p)
                ==> asked_to_shut_down(&old(self).state().kids()[p].spec_handle()),
    {
        self.state.shutdown()
    }
}

impl<F: StartChild<H>, H: ChildHandle> DynamicSupervisor<F, H> {
    /// Answer a call, the supervisor running as `sup`. It always replies
    /// and keeps running; each request is carried out by the state
    /// operation of the same name.
    pub fn handle_call<S: SystemMessageSender>(
        &mut self,
        message: DynamicSupervisorCall<F>,
        table: &mut ProcessTable<S>,
        sup: Pid,
    ) -> (r: CallResponse<DynamicSupervisorResponse>)
        requires
            old(self).state().wf(),
            old(table).wf(),
            old(table).next_ref() < u64::MAX,
        ensures
            final(self).state().wf(),
            r is Reply,
            message is WhichChildren ==> (r matches CallResponse::Reply(DynamicSupervisorResponse::Children(v))
                && (forall|p: Pid| v@.contains(p) <==> old(self).state().kids().contains_key(p.id))
                && final(self).state() == old(self).state() && *final(table) == *old(table)),
            message is CountChildren ==> (r matches CallResponse::Reply(DynamicSupervisorResponse::Count(c))
                && c == old(self).state().kids().dom().len() && final(self).state() == old(self).state()
                && *final(table) == *old(table)),
            message matches DynamicSupervisorCall::TerminateChild(pid) ==> final(self).state().kids() == old(self).state().kids().remove(pid.id) && if old(self).state().kids().contains_key(pid.id) {
                r matches CallResponse::Reply(DynamicSupervisorResponse::Completed)
                    && asked_to_shut_down(&old(self).state().kids()[pid.id].spec_handle())
            } else {
                r matches CallResponse::Reply(
                    DynamicSupervisorResponse::Error(DynamicSupervisorError::ChildNotFound(p)),
                ) && p == pid
            },
            message matches DynamicSupervisorCall::StartChild(spec) ==> if old(self).state().is_shutting_down() {
                r matches CallResponse::Reply(DynamicSupervisorResponse::Error(DynamicSupervisorError::ShuttingDown))
            } else if old(self).state().max_children() matches Some(m) && old(self).state().kids().dom().len() >= m {
                r matches CallResponse::Reply(
                    DynamicSupervisorResponse::Error(DynamicSupervisorError::MaxChildrenReached),
                )
            } else {
                r matches CallResponse::Reply(DynamicSupervisorResponse::Started(pid)) && final(self).state().kids().contains_key(pid.id) && final(self).state().kids()[pid.id].spec_spec() == spec
                    && answers_pid(&final(self).state().kids()[pid.id].spec_handle(), pid)
            },
            old(self).state().handles_ok() ==> final(self).state().handles_ok(),
    {
        let response = match message {
            DynamicSupervisorCall::StartChild(spec) => match self.state.start_child(spec, table, sup) {
                Ok(pid) => DynamicSupervisorResponse::Started(pid),
                Err(e) => DynamicSupervisorResponse::Error(e),
            },
            DynamicSupervisorCall::TerminateChild(pid) => match self.state.terminate_child(pid) {
                Ok(()) => DynamicSupervisorResponse::Completed,
                Err(e) => DynamicSupervisorResponse::Error(e),
            },
            DynamicSupervisorCall::WhichChildren => DynamicSupervisorResponse::Children(self.state.which_children()),
            DynamicSupervisorCall::CountChildren => DynamicSupervisorResponse::Count(self.state.count_children()),
        };
        CallResponse::Reply(response)
    }

    /// Handle a system message as of `now`, the supervisor running as
    /// `sup`. An exit of a child (reported by a DOWN or an EXIT) is handed
    /// to the state; the supervisor stops exactly when that exit needs a
    /// restart the restart intensity no longer allows. Timeouts are
    /// ignored.
    pub fn handle_info<S: SystemMessageSender>(
        &mut self,
        message: SystemMessage,
        now: Span,
        table: &mut ProcessTable<S>,
        sup: Pid,
    ) -> (r: InfoResponse)
        requires
            old(self).state().wf(),
            old(table).wf(),
            old(table).next_ref() < u64::MAX,
            now.wf(),
            forall|p: u64| #[trigger] old(self).state().kids().contains_key(p) ==> old(self).state().kids()[p].spec_restart_count() < u32::MAX,
        ensures
            final(self).state().wf(),
            exit_of(message) is None ==> r == InfoResponse::NoReply && final(self).state() == old(self).state()
                && *final(table) == *old(table),
            exit_of(message) matches Some((pid, reason)) ==> {
                let s = old(self).state();
                let pruned = s.tracker().times().filter(still_counts(now, s.tracker().window()));
                let restarts = !s.is_shutting_down() && s.kids().contains_key(pid.id) && should_restart(
                    s.kids()[pid.id].spec_spec().spec_restart(),
                    reason,
                );
                let allowed = (pruned.len() as u32) < s.tracker().limit();
                &&& (r == InfoResponse::Stop) == (restarts && !allowed)
                &&& !(restarts && allowed) ==> final(self).state().kids() == s.kids().remove(pid.id)
                    && *final(table) == *old(table)
                &&& restarts && allowed ==> exists|new_pid: Pid| {
                    &&& final(self).state().kids() == s.kids().remove(pid.id).insert(
                        new_pid.id,
                        #[trigger] final(self).state().kids()[new_pid.id],
                    )
                    &&& final(self).state().kids()[new_pid.id].spec_spec() == s.kids()[pid.id].spec_spec()
                    &&& final(self).state().kids()[new_pid.id].spec_restart_count() == s.kids()[pid.id].spec_restart_count() + 1
                    &&& answers_pid(&final(self).state().kids()[new_pid.id].spec_handle(), new_pid)
                }
            },
            old(self).state().handles_ok() ==> final(self).state().handles_ok(),
    {
        let (pid, reason) = match message {
            SystemMessage::Down { pid, reason, .. } => (pid, reason),
            SystemMessage::Exit { pid, reason } => (pid, reason),
            SystemMessage::Timeout { .. } => {
                return InfoResponse::NoReply;
            },
        };
        match self.state.handle_child_exit(pid, &reason, now, table, sup) {
            Ok(()) => InfoResponse::NoReply,
            Err(DynamicSupervisorError::MaxRestartsExceeded) => InfoResponse::Stop,
            Err(_) => InfoResponse::NoReply,
        }
    }
}

/// A dynamic supervisor keeps each child under the pid its handle answers:
/// a supervisor without children does, and every operation keeps it so
/// (see `start_child`, `terminate_child`, `handle_child_exit`,
/// `shutdown`). So the handle under a pid is the instance running there:
/// asking it for its pid gives that pid back.
pub proof fn law_children_run_under_their_pids<F, H: ChildHandle>(s: DynamicSupervisorState<F, H>, p: u64)
    ensures
        s.kids() == Map::<u64, DynamicChildInfo<F, H>>::empty() ==> s.handles_ok(),
        s.handles_ok() && s.kids().contains_key(p) ==> answers_pid(&s.kids()[p].spec_handle(), Pid { id: p }),
{
}

/// Restart policies: a permanent child is always restarted, a temporary
/// one never, a transient one exactly when it exited abnormally (neither
/// `Normal` nor `Shutdown`).
pub proof fn law_restart_policies(reason: ExitReason)
    ensures
        should_restart(RestartType::Permanent, reason),
        !should_restart(RestartType::Temporary, reason),
        should_restart(RestartType::Transient, reason) <==> !(reason is Normal || reason is Shutdown),
{
}

/// One-for-one restarts only the failed child and stops no other.
pub proof fn law_one_for_one_touches_only_the_failed_child(order: Seq<Seq<char>>, id: Seq<char>, idx: int)
    ensures
        restart_set(order, RestartStrategy::OneForOne, id, idx) == seq![id],
        terminate_set(order, RestartStrategy::OneForOne, id, idx).len() == 0,
{
}

/// One-for-all restarts every child, in start order.
pub proof fn law_one_for_all_restarts_everyone(order: Seq<Seq<char>>, id: Seq<char>, idx: int)
    ensures
        restart_set(order, RestartStrategy::OneForAll, id, idx) == order,
{
}

/// Rest-for-one restarts the failed child and those started after it,
/// and spares those started before it.
pub proof fn law_rest_for_one_spares_earlier_children(order: Seq<Seq<char>>, id: Seq<char>, idx: int, k: int)
    requires
        order.no_duplicates(),
        0 <= idx < order.len(),
        order[idx] == id,
        0 <= k < order.len(),
    ensures
        restart_set(order, RestartStrategy::RestForOne, id, idx).contains(order[k]) <==> k >= idx,
{
    let rs = restart_set(order, RestartStrategy::RestForOne, id, idx);
    if k >= idx {
        assert(rs[k - idx] == order[k]);
    }
    if rs.contains(order[k]) {
        let q = choose|q: int| 0 <= q < rs.len() && rs[q] == order[k];
        assert(order[idx + q] == order[k]);
    }
}

/// Every child a strategy stops is one it then restarts, and never the
/// failed child itself.
pub proof fn law_stopped_children_are_restarted(order: Seq<Seq<char>>, strategy: RestartStrategy, id: Seq<char>, idx: int, c: Seq<char>)
    requires
        order.no_duplicates(),
        0 <= idx < order.len(),
        order[idx] == id,
        terminate_set(order, strategy, id, idx).contains(c),
    ensures
        restart_set(order, strategy, id, idx).contains(c),
        c != id,
{
    let ts = terminate_set(order, strategy, id, idx);
    let q = choose|q: int| 0 <= q < ts.len() && ts[q] == c;
    match strategy {
        RestartStrategy::OneForOne => {},
        RestartStrategy::OneForAll => {
            let f = order.filter(other_id(id));
            assert(f.reverse()[q] == f[f.len() - 1 - q]);
            assert(f.contains(c));
            lemma_filter_contains_iff(order, other_id(id), c);
        },
        RestartStrategy::RestForOne => {
            let tail = order.skip(idx + 1);
            assert(tail.reverse()[q] == tail[tail.len() - 1 - q]);
            let p = tail.len() - 1 - q;
            assert(c == order[idx + 1 + p]);
            assert(order.skip(idx)[p + 1] == c);
            assert(order[idx + 1 + p] != order[idx]);
        },
    }
}

/// A restart recorded at `now` still counts at `now` when the window is
/// not empty: the restarts of one instant all count together.
pub proof fn law_fresh_restart_counts(now: Span, window: Span)
    requires
        window.total() > 0,
    ensures
        still_counts(now, window)(now),
{
}

} // verus!
