//! Process debugging and introspection, like Erlang's `sys` module:
//! suspend/resume, per-process message statistics, and trace settings.
//!
//! Times are [`Span`]s measured from an origin chosen by the caller, who
//! passes the current time in where one is needed.
use vstd::prelude::*;
use std::collections::HashMap;
use crate::pid::Pid;
use crate::time::{duration_div, max_total_nanos, Span};

verus! {

broadcast use vstd::std_specs::hash::group_hash_axioms;

/// Statistics collected for a process.
#[derive(Debug, Clone, Copy, PartialEq, Eq)]
pub struct Statistics {
    /// Number of call messages received.
    pub call_count: u64,
    /// Number of cast messages received.
    pub cast_count: u64,
    /// Number of info/system messages received.
    pub info_count: u64,
    /// Total number of messages processed.
    pub total_messages: u64,
    /// Time when statistics collection started.
    pub started_at: Option<Span>,
    /// Total time spent processing messages.
    pub processing_time: Span,
    /// Number of errors encountered.
    pub error_count: u64,
}

/// Statistics with every counter at zero, started at `started_at`.
pub open spec fn fresh_statistics(started_at: Option<Span>) -> Statistics {
    Statistics {
        call_count: 0,
        cast_count: 0,
        info_count: 0,
        total_messages: 0,
        started_at,
        processing_time: Span { secs: 0, nanos: 0 },
        error_count: 0,
    }
}

impl Default for Statistics {
    fn default() -> (s: Self)
        ensures
            s == fresh_statistics(None),
    {
        Statistics {
            call_count: 0,
            cast_count: 0,
            info_count: 0,
            total_messages: 0,
            started_at: None,
            processing_time: Span { secs: 0, nanos: 0 },
            error_count: 0,
        }
    }
}

impl Statistics {
    /// One more message of length `d`, counted by the counter now at
    /// `count`, can be recorded without overflowing: that counter, the
    /// total and the processing time all have room.
    pub open spec fn can_record(&self, count: u64, d: Span) -> bool {
        &&& count < u64::MAX
        &&& self.total_messages < u64::MAX
        &&& self.processing_time.wf()
        &&& d.wf()
        &&& self.processing_time.total() + d.total() <= max_total_nanos()
    }

    /// Fresh statistics whose collection started at `now`.
    pub fn new(now: Span) -> (s: Statistics)
        ensures
            s == fresh_statistics(Some(now)),
    {
        Statistics {
            call_count: 0,
            cast_count: 0,
            info_count: 0,
            total_messages: 0,
            started_at: Some(now),
            processing_time: Span { secs: 0, nanos: 0 },
            error_count: 0,
        }
    }

    /// Add `d` to the processing time.
    fn add_time(&mut self, d: Span)
        requires
            old(self).processing_time.wf(),
            d.wf(),
            old(self).processing_time.total() + d.total() <= max_total_nanos(),
        ensures
            final(self).processing_time.wf(),
            final(self).processing_time.total() == old(self).processing_time.total() + d.total(),
            final(self).call_count == old(self).call_count,
            final(self).cast_count == old(self).cast_count,
            final(self).info_count == old(self).info_count,
            final(self).total_messages == old(self).total_messages,
            final(self).started_at == old(self).started_at,
            final(self).error_count == old(self).error_count,
    {
        match self.processing_time.checked_add(d) {
            Some(t) => self.processing_time = t,
            None => {},
        }
    }

    /// Record a call message that took `duration`.
    pub fn record_call(&mut self, duration: Span)
        requires
            old(self).can_record(old(self).call_count, duration),
        ensures
            final(self).call_count == old(self).call_count + 1,
            final(self).total_messages == old(self).total_messages + 1,
            final(self).processing_time.wf(),
            final(self).processing_time.total() == old(self).processing_time.total() + duration.total(),
            final(self).cast_count == old(self).cast_count,
            final(self).info_count == old(self).info_count,
            final(self).started_at == old(self).started_at,
            final(self).error_count == old(self).error_count,
    {
        self.call_count = self.call_count + 1;
        self.total_messages = self.total_messages + 1;
        self.add_time(duration);
    }

    /// Record a cast message that took `duration`.
    pub fn record_cast(&mut self, duration: Span)
        requires
            old(self).can_record(old(self).cast_count, duration),
        ensures
            final(self).cast_count == old(self).cast_count + 1,
            final(self).total_messages == old(self).total_messages + 1,
            final(self).processing_time.wf(),
            final(self).processing_time.total() == old(self).processing_time.total() + duration.total(),
            final(self).call_count == old(self).call_count,
            final(self).info_count == old(self).info_count,
            final(self).started_at == old(self).started_at,
            final(self).error_count == old(self).error_count,
    {
        self.cast_count = self.cast_count + 1;
        self.total_messages = self.total_messages + 1;
        self.add_time(duration);
    }

    /// Record an info/system message that took `duration`.
    pub fn record_info(&mut self, duration: Span)
        requires
            old(self).can_record(old(self).info_count, duration),
        ensures
            final(self).info_count == old(self).info_count + 1,
            final(self).total_messages == old(self).total_messages + 1,
            final(self).processing_time.wf(),
            final(self).processing_time.total() == old(self).processing_time.total() + duration.total(),
            final(self).call_count == old(self).call_count,
            final(self).cast_count == old(self).cast_count,
            final(self).started_at == old(self).started_at,
            final(self).error_count == old(self).error_count,
    {
        self.info_count = self.info_count + 1;
        self.total_messages = self.total_messages + 1;
        self.add_time(duration);
    }

    /// Record an error.
    pub fn record_error(&mut self)
        requires
            old(self).error_count < u64::MAX,
        ensures
            *final(self) == (Statistics { error_count: (old(self).error_count + 1) as u64, ..*old(self) }),
    {
        self.error_count = self.error_count + 1;
    }

    /// Time since statistics collection started, as of `now` (zero when it
    /// never started or `now` is earlier).
    pub fn uptime(&self, now: Span) -> (r: Span)
        requires
            now.wf(),
            self.started_at matches Some(t) ==> t.wf(),
        ensures
            r.wf(),
            r.total() == (match self.started_at {
                Some(t) => if now.total() >= t.total() { now.total() - t.total() } else { 0 },
                None => 0,
            }),
    {
        match self.started_at {
            Some(t) => now.saturating_sub(t),
            None => Span::zero(),
        }
    }

    /// Average message processing time: zero before any message, otherwise
    /// the processing time divided by the message count (taken as a `u32`,
    /// as std's `Duration / u32` does).
    pub fn avg_processing_time(&self) -> (r: Span)
        requires
            self.processing_time.wf(),
            self.total_messages != 0 ==> (self.total_messages as u32) != 0,
        ensures
            self.total_messages == 0 ==> r.total() == 0,
            self.total_messages != 0 ==> (r.secs, r.nanos) == duration_div(
                self.processing_time.secs,
                self.processing_time.nanos,
                self.total_messages as u32,
            ),
    {
        if self.total_messages == 0 {
            Span::zero()
        } else {
            #[verifier::truncate]
            let by = self.total_messages as u32;
            self.processing_time.div_u32(by)
        }
    }
}

/// Trace options for a process.
#[derive(Debug, Clone, Copy, PartialEq, Eq, Structural)]
pub struct TraceOptions {
    /// Log all incoming call messages.
    pub trace_calls: bool,
    /// Log all incoming cast messages.
    pub trace_casts: bool,
    /// Log all info/system messages.
    pub trace_info: bool,
    /// Log all outgoing replies.
    pub trace_replies: bool,
}

impl TraceOptions {
    /// Any kind of message is traced.
    pub open spec fn spec_is_enabled(&self) -> bool {
        self.trace_calls || self.trace_casts || self.trace_info || self.trace_replies
    }

    /// Enable all tracing.
    pub fn all() -> (r: TraceOptions)
        ensures
            r == (TraceOptions { trace_calls: true, trace_casts: true, trace_info: true, trace_replies: true }),
    {
        TraceOptions { trace_calls: true, trace_casts: true, trace_info: true, trace_replies: true }
    }

    /// Disable all tracing.
    pub fn none() -> (r: TraceOptions)
        ensures
            r == (TraceOptions { trace_calls: false, trace_casts: false, trace_info: false, trace_replies: false }),
    {
        TraceOptions { trace_calls: false, trace_casts: false, trace_info: false, trace_replies: false }
    }

    /// Check if any tracing is enabled.
    pub fn is_enabled(&self) -> (r: bool)
        ensures
            r == self.spec_is_enabled(),
            r == (self.trace_calls || self.trace_casts || self.trace_info || self.trace_replies),
    {
        self.trace_calls || self.trace_casts || self.trace_info || self.trace_replies
    }
}

impl Default for TraceOptions {
    fn default() -> (r: Self)
        ensures
            r == (TraceOptions { trace_calls: false, trace_casts: false, trace_info: false, trace_replies: false }),
    {
        TraceOptions::none()
    }
}

/// Trace options by pid number; only options that trace something are
/// kept.
pub struct TraceTable {
    options: HashMap<u64, TraceOptions>,
}

impl TraceTable {
    /// The options of each pid number.
    pub closed spec fn view(&self) -> Map<u64, TraceOptions> {
        self.options@
    }

    /// Only options that trace something are stored.
    #[verifier::type_invariant]
    spec fn stored_options_trace(&self) -> bool {
        forall|p: u64| #[trigger] self.options@.contains_key(p) ==> self.options@[p].spec_is_enabled()
    }

    /// A table without options.
    pub fn new() -> (t: TraceTable)
        ensures
            t.view() == Map::<u64, TraceOptions>::empty(),
    {
        TraceTable { options: HashMap::new() }
    }

    /// Whether options are stored for `p`.
    pub fn contains(&self, p: u64) -> (r: bool)
        ensures
            r == self.view().contains_key(p),
    {
        self.options.contains_key(&p)
    }

    /// The options stored for `p`; they trace something.
    pub fn get(&self, p: u64) -> (r: Option<TraceOptions>)
        ensures
            r is None <==> !self.view().contains_key(p),
            r matches Some(o) ==> o == self.view()[p] && o.spec_is_enabled(),
    {
        proof {
            use_type_invariant(self);
        }
        match self.options.get(&p) {
            Some(o) => Some(*o),
            None => None,
        }
    }

    /// Store `o` for `p`.
    pub fn insert(&mut self, p: u64, o: TraceOptions)
        requires
            o.spec_is_enabled(),
        ensures
            final(self).view() == old(self).view().insert(p, o),
    {
        proof {
            use_type_invariant(&*self);
        }
        let mut m: HashMap<u64, TraceOptions> = HashMap::new();
        std::mem::swap(&mut m, &mut self.options);
        m.insert(p, o);
        std::mem::swap(&mut m, &mut self.options);
    }

    /// Forget the options of `p`.
    pub fn remove(&mut self, p: u64)
        ensures
            final(self).view() == old(self).view().remove(p),
    {
        proof {
            use_type_invariant(&*self);
        }
        let mut m: HashMap<u64, TraceOptions> = HashMap::new();
        std::mem::swap(&mut m, &mut self.options);
        m.remove(&p);
        std::mem::swap(&mut m, &mut self.options);
    }

    /// Forget all options.
    pub fn clear(&mut self)
        ensures
            final(self).view() == Map::<u64, TraceOptions>::empty(),
    {
        let m: HashMap<u64, TraceOptions> = HashMap::new();
        self.options = m;
    }
}

/// Suspension, statistics and trace settings of every process, by pid number.
pub struct SysState {
    suspended: HashMap<u64, bool>,
    statistics: HashMap<u64, Statistics>,
    trace_options: TraceTable,
}

impl SysState {
    /// Suspension marks by pid number.
    pub closed spec fn suspended_view(&self) -> Map<u64, bool> {
        self.suspended@
    }

    /// Statistics by pid number (present exactly when collection is enabled).
    pub closed spec fn statistics_view(&self) -> Map<u64, Statistics> {
        self.statistics@
    }

    /// Trace options by pid number (present exactly when tracing is set).
    pub closed spec fn trace_view(&self) -> Map<u64, TraceOptions> {
        self.trace_options.view()
    }

    /// `pid` is suspended.
    pub open spec fn spec_is_suspended(&self, pid: Pid) -> bool {
        self.suspended_view().contains_key(pid.id) && self.suspended_view()[pid.id]
    }

    /// A state where nothing is suspended, collected or traced.
    pub fn new() -> (s: SysState)
        ensures
            s.suspended_view() == Map::<u64, bool>::empty(),
            s.statistics_view() == Map::<u64, Statistics>::empty(),
            s.trace_view() == Map::<u64, TraceOptions>::empty(),
    {
        SysState { suspended: HashMap::new(), statistics: HashMap::new(), trace_options: TraceTable::new() }
    }
}

// ==================== Suspend/Resume ====================

/// Suspend a process: it will not process new messages until resumed.
pub fn suspend(state: &mut SysState, pid: Pid)
    ensures
        final(state).suspended_view() == old(state).suspended_view().insert(pid.id, true),
        final(state).statistics_view() == old(state).statistics_view(),
        final(state).trace_view() == old(state).trace_view(),
{
    state.suspended.insert(pid.id, true);
}

/// Resume a suspended process.
pub fn resume(state: &mut SysState, pid: Pid)
    ensures
        final(state).suspended_view() == old(state).suspended_view().remove(pid.id),
        final(state).statistics_view() == old(state).statistics_view(),
        final(state).trace_view() == old(state).trace_view(),
{
    state.suspended.remove(&pid.id);
}

/// Check if a process is suspended.
pub fn is_suspended(state: &SysState, pid: Pid) -> (r: bool)
    ensures
        r == state.spec_is_suspended(pid),
{
    match state.suspended.get(&pid.id) {
        Some(b) => *b,
        None => false,
    }
}

// ==================== Statistics ====================

/// Enable or disable statistics collection for a process. Enabling keeps
/// statistics already being collected; a new collection starts at `now`.
pub fn statistics(state: &mut SysState, pid: Pid, enable: bool, now: Span)
    ensures
        enable && old(state).statistics_view().contains_key(pid.id) ==> final(state).statistics_view() == old(state).statistics_view(),
        enable && !old(state).statistics_view().contains_key(pid.id) ==> final(state).statistics_view() == old(
            state,
        ).statistics_view().insert(pid.id, fresh_statistics(Some(now))),
        !enable ==> final(state).statistics_view() == old(state).statistics_view().remove(pid.id),
        final(state).suspended_view() == old(state).suspended_view(),
        final(state).trace_view() == old(state).trace_view(),
{
    if enable {
        if !state.statistics.contains_key(&pid.id) {
            state.statistics.insert(pid.id, Statistics::new(now));
        }
    } else {
        state.statistics.remove(&pid.id);
    }
}

/// Check if statistics collection is enabled for a process.
pub fn statistics_enabled(state: &SysState, pid: Pid) -> (r: bool)
    ensures
        r == state.statistics_view().contains_key(pid.id),
{
    state.statistics.contains_key(&pid.id)
}

/// Get statistics for a process (`None` when collection is not enabled).
pub fn get_statistics(state: &SysState, pid: Pid) -> (r: Option<Statistics>)
    ensures
        r is None <==> !state.statistics_view().contains_key(pid.id),
        r matches Some(s) ==> s == state.statistics_view()[pid.id],
{
    match state.statistics.get(&pid.id) {
        Some(s) => Some(*s),
        None => None,
    }
}

/// Reset statistics for a process, keeping collection enabled; the new
/// collection starts at `now`. No-op when collection is not enabled.
pub fn reset_statistics(state: &mut SysState, pid: Pid, now: Span)
    ensures
        old(state).statistics_view().contains_key(pid.id) ==> final(state).statistics_view() == old(
            state,
        ).statistics_view().insert(pid.id, fresh_statistics(Some(now))),
        !old(state).statistics_view().contains_key(pid.id) ==> final(state).statistics_view() == old(state).statistics_view(),
        final(state).suspended_view() == old(state).suspended_view(),
        final(state).trace_view() == old(state).trace_view(),
{
    if state.statistics.contains_key(&pid.id) {
        state.statistics.insert(pid.id, Statistics::new(now));
    }
}

/// The kinds of message that statistics count.
#[derive(Debug, Clone, Copy, PartialEq, Eq, Structural)]
pub enum MessageKind {
    Call,
    Cast,
    Info,
}

/// The counter of `s` that counts messages of `kind`.
pub open spec fn counter_of(s: Statistics, kind: MessageKind) -> u64 {
    match kind {
        MessageKind::Call => s.call_count,
        MessageKind::Cast => s.cast_count,
        MessageKind::Info => s.info_count,
    }
}

/// The statistics of `pid`, if collected, can take one more message of
/// `kind` and length `d`.
pub open spec fn recordable(state: &SysState, pid: Pid, kind: MessageKind, d: Span) -> bool {
    state.statistics_view().contains_key(pid.id) ==> state.statistics_view()[pid.id].can_record(
        counter_of(state.statistics_view()[pid.id], kind),
        d,
    )
}

/// Whether the statistics of `pid`, if collected, can take one more
/// message of `kind` and length `d` without overflowing.
pub fn can_record(state: &SysState, pid: Pid, kind: MessageKind, d: Span) -> (r: bool)
    ensures
        r == recordable(state, pid, kind, d),
{
    match state.statistics.get(&pid.id) {
        None => true,
        Some(s) => {
            let count = match kind {
                MessageKind::Call => s.call_count,
                MessageKind::Cast => s.cast_count,
                MessageKind::Info => s.info_count,
            };
            if count == u64::MAX || s.total_messages == u64::MAX || s.processing_time.nanos >= 1_000_000_000
                || d.nanos >= 1_000_000_000 {
                false
            } else {
                s.processing_time.checked_add(d).is_some()
            }
        },
    }
}

/// Record a call message that took `duration` (when statistics are collected).
pub fn record_call(state: &mut SysState, pid: Pid, duration: Span)
    requires
        recordable(old(state), pid, MessageKind::Call, duration),
    ensures
        !old(state).statistics_view().contains_key(pid.id) ==> final(state).statistics_view() == old(state).statistics_view(),
        old(state).statistics_view().contains_key(pid.id) ==> exists|s: Statistics|
            final(state).statistics_view() == old(state).statistics_view().insert(pid.id, s) && {
                let o = old(state).statistics_view()[pid.id];
                &&& s.call_count == o.call_count + 1
                &&& s.total_messages == o.total_messages + 1
                &&& s.processing_time.total() == o.processing_time.total() + duration.total()
                &&& s.cast_count == o.cast_count && s.info_count == o.info_count
                &&& s.started_at == o.started_at && s.error_count == o.error_count
            },
        final(state).suspended_view() == old(state).suspended_view(),
        final(state).trace_view() == old(state).trace_view(),
{
    match state.statistics.get(&pid.id) {
        Some(s) => {
            let mut updated = *s;
            updated.record_call(duration);
            state.statistics.insert(pid.id, updated);
        },
        None => {},
    }
}

/// Record a cast message that took `duration` (when statistics are collected).
pub fn record_cast(state: &mut SysState, pid: Pid, duration: Span)
    requires
        recordable(old(state), pid, MessageKind::Cast, duration),
    ensures
        !old(state).statistics_view().contains_key(pid.id) ==> final(state).statistics_view() == old(state).statistics_view(),
        old(state).statistics_view().contains_key(pid.id) ==> exists|s: Statistics|
            final(state).statistics_view() == old(state).statistics_view().insert(pid.id, s) && {
                let o = old(state).statistics_view()[pid.id];
                &&& s.cast_count == o.cast_count + 1
                &&& s.total_messages == o.total_messages + 1
                &&& s.processing_time.total() == o.processing_time.total() + duration.total()
                &&& s.call_count == o.call_count && s.info_count == o.info_count
                &&& s.started_at == o.started_at && s.error_count == o.error_count
            },
        final(state).suspended_view() == old(state).suspended_view(),
        final(state).trace_view() == old(state).trace_view(),
{
    match state.statistics.get(&pid.id) {
        Some(s) => {
            let mut updated = *s;
            updated.record_cast(duration);
            state.statistics.insert(pid.id, updated);
        },
        None => {},
    }
}

/// Record an info message that took `duration` (when statistics are collected).
pub fn record_info(state: &mut SysState, pid: Pid, duration: Span)
    requires
        recordable(old(state), pid, MessageKind::Info, duration),
    ensures
        !old(state).statistics_view().contains_key(pid.id) ==> final(state).statistics_view() == old(state).statistics_view(),
        old(state).statistics_view().contains_key(pid.id) ==> exists|s: Statistics|
            final(state).statistics_view() == old(state).statistics_view().insert(pid.id, s) && {
                let o = old(state).statistics_view()[pid.id];
                &&& s.info_count == o.info_count + 1
                &&& s.total_messages == o.total_messages + 1
                &&& s.processing_time.total() == o.processing_time.total() + duration.total()
                &&& s.call_count == o.call_count && s.cast_count == o.cast_count
                &&& s.started_at == o.started_at && s.error_count == o.error_count
            },
        final(state).suspended_view() == old(state).suspended_view(),
        final(state).trace_view() == old(state).trace_view(),
{
    match state.statistics.get(&pid.id) {
        Some(s) => {
            let mut updated = *s;
            updated.record_info(duration);
            state.statistics.insert(pid.id, updated);
        },
        None => {},
    }
}

/// Record an error (when statistics are collected).
pub fn record_error(state: &mut SysState, pid: Pid)
    requires
        old(state).statistics_view().contains_key(pid.id) ==> old(state).statistics_view()[pid.id].error_count < u64::MAX,
    ensures
        !old(state).statistics_view().contains_key(pid.id) ==> final(state).statistics_view() == old(state).statistics_view(),
        old(state).statistics_view().contains_key(pid.id) ==> final(state).statistics_view() == old(state).statistics_view().insert(
            pid.id,
            Statistics {
                error_count: (old(state).statistics_view()[pid.id].error_count + 1) as u64,
                ..old(state).statistics_view()[pid.id]
            },
        ),
        final(state).suspended_view() == old(state).suspended_view(),
        final(state).trace_view() == old(state).trace_view(),
{
    match state.statistics.get(&pid.id) {
        Some(s) => {
            let mut updated = *s;
            updated.record_error();
            state.statistics.insert(pid.id, updated);
        },
        None => {},
    }
}

// ==================== Tracing ====================

/// Enable tracing of everything for a process (keeping options already
/// set), or disable it.
pub fn trace(state: &mut SysState, pid: Pid, enable: bool)
    ensures
        enable && old(state).trace_view().contains_key(pid.id) ==> final(state).trace_view() == old(state).trace_view(),
        enable && !old(state).trace_view().contains_key(pid.id) ==> final(state).trace_view() == old(state).trace_view().insert(
            pid.id,
            TraceOptions { trace_calls: true, trace_casts: true, trace_info: true, trace_replies: true },
        ),
        !enable ==> final(state).trace_view() == old(state).trace_view().remove(pid.id),
        final(state).suspended_view() == old(state).suspended_view(),
        final(state).statistics_view() == old(state).statistics_view(),
{
    if enable {
        if !state.trace_options.contains(pid.id) {
            state.trace_options.insert(pid.id, TraceOptions::all());
        }
    } else {
        state.trace_options.remove(pid.id);
    }
}

/// Set specific trace options for a process; options that trace nothing
/// remove its settings.
pub fn set_trace_options(state: &mut SysState, pid: Pid, options: TraceOptions)
    ensures
        options.trace_calls || options.trace_casts || options.trace_info || options.trace_replies
            ==> final(state).trace_view() == old(state).trace_view().insert(pid.id, options),
        !(options.trace_calls || options.trace_casts || options.trace_info || options.trace_replies)
            ==> final(state).trace_view() == old(state).trace_view().remove(pid.id),
        options.spec_is_enabled() ==> final(state).trace_view() == old(state).trace_view().insert(pid.id, options),
        !options.spec_is_enabled() ==> final(state).trace_view() == old(state).trace_view().remove(pid.id),
        final(state).suspended_view() == old(state).suspended_view(),
        final(state).statistics_view() == old(state).statistics_view(),
{
    if options.is_enabled() {
        state.trace_options.insert(pid.id, options);
    } else {
        state.trace_options.remove(pid.id);
    }
}

/// Get trace options for a process.
pub fn get_trace_options(state: &SysState, pid: Pid) -> (r: Option<TraceOptions>)
    ensures
        r is None <==> !state.trace_view().contains_key(pid.id),
        r matches Some(o) ==> o == state.trace_view()[pid.id] && o.spec_is_enabled(),
{
    match state.trace_options.get(pid.id) {
        Some(o) => Some(o),
        None => None,
    }
}

/// Check if tracing is enabled for a process: it is exactly when trace
/// options are set for it, since only options that trace something are
/// kept.
pub fn tracing_enabled(state: &SysState, pid: Pid) -> (r: bool)
    ensures
        r == (state.trace_view().contains_key(pid.id) && state.trace_view()[pid.id].spec_is_enabled()),
        r == state.trace_view().contains_key(pid.id),
{
    proof {
        use_type_invariant(&state.trace_options);
    }
    match state.trace_options.get(pid.id) {
        Some(o) => o.is_enabled(),
        None => false,
    }
}

/// Whether a call message to `pid` is to be logged.
pub fn trace_call(state: &SysState, pid: Pid) -> (r: bool)
    ensures
        r == (state.trace_view().contains_key(pid.id) && state.trace_view()[pid.id].trace_calls),
{
    match state.trace_options.get(pid.id) {
        Some(o) => o.trace_calls,
        None => false,
    }
}

/// Whether a cast message to `pid` is to be logged.
pub fn trace_cast(state: &SysState, pid: Pid) -> (r: bool)
    ensures
        r == (state.trace_view().contains_key(pid.id) && state.trace_view()[pid.id].trace_casts),
{
    match state.trace_options.get(pid.id) {
        Some(o) => o.trace_casts,
        None => false,
    }
}

/// Whether an info message to `pid` is to be logged.
pub fn trace_info(state: &SysState, pid: Pid) -> (r: bool)
    ensures
        r == (state.trace_view().contains_key(pid.id) && state.trace_view()[pid.id].trace_info),
{
    match state.trace_options.get(pid.id) {
        Some(o) => o.trace_info,
        None => false,
    }
}

/// Whether a reply from `pid` is to be logged.
pub fn trace_reply(state: &SysState, pid: Pid) -> (r: bool)
    ensures
        r == (state.trace_view().contains_key(pid.id) && state.trace_view()[pid.id].trace_replies),
{
    match state.trace_options.get(pid.id) {
        Some(o) => o.trace_replies,
        None => false,
    }
}

// ==================== Cleanup ====================

/// Forget everything about a terminated process.
pub fn cleanup(state: &mut SysState, pid: Pid)
    ensures
        final(state).suspended_view() == old(state).suspended_view().remove(pid.id),
        final(state).statistics_view() == old(state).statistics_view().remove(pid.id),
        final(state).trace_view() == old(state).trace_view().remove(pid.id),
{
    state.suspended.remove(&pid.id);
    state.statistics.remove(&pid.id);
    state.trace_options.remove(pid.id);
}

/// Clear all sys state.
pub fn clear(state: &mut SysState)
    ensures
        final(state).suspended_view() == Map::<u64, bool>::empty(),
        final(state).statistics_view() == Map::<u64, Statistics>::empty(),
        final(state).trace_view() == Map::<u64, TraceOptions>::empty(),
{
    state.suspended.clear();
    state.statistics.clear();
    state.trace_options.clear();
}

/// Every message is counted once: the total is the sum of calls, casts
/// and infos.
pub open spec fn counts_add_up(s: Statistics) -> bool {
    s.total_messages == s.call_count + s.cast_count + s.info_count
}

/// Fresh statistics count nothing, and recording a call, a cast or an
/// info keeps the total equal to the sum of the three counters.
pub proof fn law_total_counts_every_message(started_at: Option<Span>, o: Statistics, s: Statistics)
    requires
        counts_add_up(o),
        s.total_messages == o.total_messages + 1,
        (s.call_count == o.call_count + 1 && s.cast_count == o.cast_count && s.info_count == o.info_count)
            || (s.call_count == o.call_count && s.cast_count == o.cast_count + 1 && s.info_count == o.info_count)
            || (s.call_count == o.call_count && s.cast_count == o.cast_count && s.info_count == o.info_count + 1),
    ensures
        counts_add_up(fresh_statistics(started_at)),
        counts_add_up(s),
{
}

/// Resuming a process undoes its suspension: suspending then resuming
/// leaves the suspension table as resuming alone would.
pub proof fn law_resume_undoes_suspend(suspended: Map<u64, bool>, pid: Pid)
    ensures
        suspended.insert(pid.id, true).remove(pid.id) == suspended.remove(pid.id),
        !suspended.insert(pid.id, true).remove(pid.id).contains_key(pid.id),
        suspended.insert(pid.id, true).contains_key(pid.id) && suspended.insert(pid.id, true)[pid.id],
{
    assert(suspended.insert(pid.id, true).remove(pid.id) =~= suspended.remove(pid.id));
}

/// Options trace something exactly when one of their four flags is set:
/// options that log only replies (or only calls, casts or infos) count as
/// tracing, and only options with every flag off trace nothing.
pub proof fn law_options_trace_when_a_flag_is_set(o: TraceOptions)
    ensures
        o.spec_is_enabled() <==> (o.trace_calls || o.trace_casts || o.trace_info || o.trace_replies),
        (TraceOptions { trace_calls: false, trace_casts: false, trace_info: false, trace_replies: true }).spec_is_enabled(),
        !(TraceOptions { trace_calls: false, trace_casts: false, trace_info: false, trace_replies: false }).spec_is_enabled(),
{
}

/// Setting options that log only replies keeps them: they are what
/// `get_trace_options` then finds, and tracing is on.
pub proof fn law_reply_only_options_are_kept(before: Map<u64, TraceOptions>, after: Map<u64, TraceOptions>, pid: Pid, o: TraceOptions)
    requires
        o.trace_replies,
        o.spec_is_enabled() ==> after == before.insert(pid.id, o),
    ensures
        after.contains_key(pid.id),
        after[pid.id] == o,
        after[pid.id].spec_is_enabled(),
{
}

} // verus!
