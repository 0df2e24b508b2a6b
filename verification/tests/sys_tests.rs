use spawned_concurrency::ids::IdCounter;
use spawned_concurrency::pid::Pid;
use spawned_concurrency::sys::{
    cleanup, clear, get_statistics, get_trace_options, is_suspended, record_call, record_cast, record_error,
    record_info, reset_statistics, resume, set_trace_options, statistics, statistics_enabled, suspend, trace,
    trace_call, trace_cast, trace_info, trace_reply, tracing_enabled, can_record, MessageKind, Statistics, SysState,
    TraceOptions,
};
use spawned_concurrency::time::Span;

fn nanos(s: Span) -> u128 {
    s.secs as u128 * 1_000_000_000 + s.nanos as u128
}

#[test]
fn test_suspend_resume() {
    let mut st = SysState::new();
    clear(&mut st);
    let mut ids = IdCounter::new();
    let pid = Pid::new(&mut ids);

    assert!(!is_suspended(&st, pid));

    suspend(&mut st, pid);
    assert!(is_suspended(&st, pid));

    resume(&mut st, pid);
    assert!(!is_suspended(&st, pid));
}

#[test]
fn test_statistics() {
    let mut st = SysState::new();
    clear(&mut st);
    let mut ids = IdCounter::new();
    let pid = Pid::new(&mut ids);
    let now = Span::from_secs(1);

    // Not enabled by default
    assert!(!statistics_enabled(&st, pid));
    assert!(get_statistics(&st, pid).is_none());

    // Enable
    statistics(&mut st, pid, true, now);
    assert!(statistics_enabled(&st, pid));

    // Record some stats
    record_call(&mut st, pid, Span::from_millis(10));
    record_call(&mut st, pid, Span::from_millis(20));
    record_cast(&mut st, pid, Span::from_millis(5));
    record_info(&mut st, pid, Span::from_millis(2));
    record_error(&mut st, pid);

    let stats = get_statistics(&st, pid).unwrap();
    assert_eq!(stats.call_count, 2);
    assert_eq!(stats.cast_count, 1);
    assert_eq!(stats.info_count, 1);
    assert_eq!(stats.total_messages, 4);
    assert_eq!(stats.error_count, 1);
    assert_eq!(stats.processing_time, Span::from_millis(37));

    // Reset
    reset_statistics(&mut st, pid, now);
    let stats = get_statistics(&st, pid).unwrap();
    assert_eq!(stats.call_count, 0);
    assert_eq!(stats.total_messages, 0);

    // Disable
    statistics(&mut st, pid, false, now);
    assert!(!statistics_enabled(&st, pid));
}

#[test]
fn test_tracing() {
    let mut st = SysState::new();
    clear(&mut st);
    let mut ids = IdCounter::new();
    let pid = Pid::new(&mut ids);

    // Not enabled by default
    assert!(!tracing_enabled(&st, pid));
    assert!(get_trace_options(&st, pid).is_none());

    // Enable all
    trace(&mut st, pid, true);
    assert!(tracing_enabled(&st, pid));
    let opts = get_trace_options(&st, pid).unwrap();
    assert!(opts.trace_calls);
    assert!(opts.trace_casts);

    // Set specific options
    set_trace_options(
        &mut st,
        pid,
        TraceOptions { trace_calls: true, trace_casts: false, trace_info: false, trace_replies: true },
    );
    let opts = get_trace_options(&st, pid).unwrap();
    assert!(opts.trace_calls);
    assert!(!opts.trace_casts);
    assert!(opts.trace_replies);
    assert!(trace_call(&st, pid));
    assert!(!trace_cast(&st, pid));
    assert!(!trace_info(&st, pid));
    assert!(trace_reply(&st, pid));

    // Disable
    trace(&mut st, pid, false);
    assert!(!tracing_enabled(&st, pid));
}

#[test]
fn test_cleanup() {
    let mut st = SysState::new();
    clear(&mut st);
    let mut ids = IdCounter::new();
    let pid = Pid::new(&mut ids);

    suspend(&mut st, pid);
    statistics(&mut st, pid, true, Span::from_secs(0));
    trace(&mut st, pid, true);

    assert!(is_suspended(&st, pid));
    assert!(statistics_enabled(&st, pid));
    assert!(tracing_enabled(&st, pid));

    cleanup(&mut st, pid);

    assert!(!is_suspended(&st, pid));
    assert!(!statistics_enabled(&st, pid));
    assert!(!tracing_enabled(&st, pid));
}

#[test]
fn test_statistics_avg_processing_time() {
    let mut stats = Statistics::new(Span::from_secs(0));

    // No messages yet
    assert_eq!(stats.avg_processing_time(), Span { secs: 0, nanos: 0 });

    // Add some messages
    stats.record_call(Span::from_millis(100));
    stats.record_call(Span::from_millis(200));
    stats.record_cast(Span::from_millis(100));

    // 100 + 200 + 100 = 400ms / 3 = 133.33ms
    let avg = stats.avg_processing_time();
    assert!(nanos(avg) >= nanos(Span::from_millis(130)) && nanos(avg) <= nanos(Span::from_millis(140)));
}

#[test]
fn statistics_avg_is_exact_division() {
    let mut stats = Statistics::new(Span::from_secs(0));
    stats.record_call(Span::from_millis(100));
    stats.record_call(Span::from_millis(200));
    stats.record_cast(Span::from_millis(100));
    assert_eq!(nanos(stats.avg_processing_time()), 133_333_333);
}

#[test]
fn statistics_uptime() {
    let stats = Statistics::new(Span::from_secs(10));
    assert_eq!(stats.uptime(Span::from_secs(25)), Span::from_secs(15));
    assert_eq!(stats.uptime(Span::from_secs(5)), Span { secs: 0, nanos: 0 });
}

#[test]
fn trace_options_all_none() {
    assert!(TraceOptions::all().is_enabled());
    assert!(!TraceOptions::none().is_enabled());
    assert!(!TraceOptions::default().is_enabled());
}

#[test]
fn a_full_counter_blocks_only_its_own_kind() {
    let mut st = SysState::new();
    let mut ids = IdCounter::new();
    let pid = Pid::new(&mut ids);
    let untracked = Pid::new(&mut ids);
    statistics(&mut st, pid, true, Span::zero());
    let mut stats = Statistics::new(Span::zero());
    stats.cast_count = u64::MAX;
    assert!(can_record(&st, pid, MessageKind::Cast, Span::from_millis(1)));
    assert!(can_record(&st, untracked, MessageKind::Cast, Span::from_millis(1)));
    for _ in 0..3 {
        record_cast(&mut st, pid, Span::from_millis(1));
    }
    assert_eq!(get_statistics(&st, pid).unwrap().cast_count, 3);
    assert!(stats.cast_count == u64::MAX);
    stats.record_call(Span::from_millis(1));
    assert_eq!(stats.call_count, 1);
    assert_eq!(stats.total_messages, 1);
}

#[test]
fn tracing_is_enabled_exactly_when_options_are_stored() {
    let mut st = SysState::new();
    let mut ids = IdCounter::new();
    let pid = Pid::new(&mut ids);
    assert_eq!(tracing_enabled(&st, pid), get_trace_options(&st, pid).is_some());
    set_trace_options(&mut st, pid, TraceOptions::none());
    assert!(!tracing_enabled(&st, pid));
    assert!(get_trace_options(&st, pid).is_none());
    trace(&mut st, pid, true);
    assert!(tracing_enabled(&st, pid));
    assert_eq!(get_trace_options(&st, pid), Some(TraceOptions::all()));
    cleanup(&mut st, pid);
    assert!(!tracing_enabled(&st, pid));
}
