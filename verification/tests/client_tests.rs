use ppt2_sync::client::{ConnectRetry, ConnectStep, FrameGate, MAX_CONNECT_RETRIES, RETRY_PAUSE_MILLIS};
use ppt2_sync::server::{relay_after_exchange, starts_on, RelayStep, DLL_PROCESS_ATTACH_REASON};

#[test]
fn not_found_is_retried_three_times_then_falls_back() {
    let mut p = ConnectRetry::new();
    for n in 1..=3 {
        assert_eq!(p.after_failure(true), ConnectStep::RetryAfter(100));
        assert_eq!(p.retries, n);
    }
    assert_eq!(p.after_failure(true), ConnectStep::Fallback);
    assert_eq!(p.retries, MAX_CONNECT_RETRIES);
    assert_eq!(RETRY_PAUSE_MILLIS, 100);
}

#[test]
fn other_errors_fall_back_at_once() {
    let mut p = ConnectRetry::new();
    assert_eq!(p.after_failure(false), ConnectStep::Fallback);
    assert_eq!(p.retries, 0);
    let mut p = ConnectRetry::new();
    assert_eq!(p.after_failure(true), ConnectStep::RetryAfter(100));
    assert_eq!(p.after_failure(false), ConnectStep::Fallback);
    assert_eq!(p.retries, 1);
}

#[test]
fn first_frame_is_not_acknowledged() {
    let mut g = FrameGate::new();
    assert!(g.first_frame);
    assert!(!g.begin_frame());
    for _ in 0..5 {
        assert!(g.begin_frame());
    }
    assert!(!g.first_frame);
}

#[test]
fn dll_starts_only_on_process_attach() {
    assert!(starts_on(DLL_PROCESS_ATTACH_REASON));
    assert!(starts_on(1));
    assert!(!starts_on(0)); // DLL_PROCESS_DETACH
    assert!(!starts_on(2)); // DLL_THREAD_ATTACH
    assert!(!starts_on(3)); // DLL_THREAD_DETACH
}

#[test]
fn relay_closes_on_failed_exchange() {
    assert_eq!(relay_after_exchange(true), RelayStep::SignalAndContinue);
    assert_eq!(relay_after_exchange(false), RelayStep::CloseAndSignal);
}
