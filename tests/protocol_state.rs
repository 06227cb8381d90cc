use wayland_bridge::backend::{require_egl, GraphicsBackend, StartupError};
use wayland_bridge::protocol::{
    DestroyRequest, LoopAction, LoopEvent, ProtocolState, DESTROY_QUEUE_CAPACITY,
};

fn with_globals(n: usize) -> ProtocolState {
    let mut s = ProtocolState::new();
    for i in 0..n {
        assert_eq!(s.announce_global(), Some(i));
    }
    s
}

#[test]
fn fresh_state_is_running_and_empty() {
    let s = ProtocolState::new();
    assert!(s.is_running());
    assert!(!s.is_live(0));
    assert!(!s.is_connected(0));
    assert!(s.pending().is_empty());
}

#[test]
fn accepts_yield_one_identity_and_one_notification_each() {
    let mut s = ProtocolState::new();
    let mut notified = Vec::new();
    for _ in 0..5 {
        match s.on_event(LoopEvent::ClientConnected) {
            LoopAction::NotifyNewClient(c) => notified.push(c),
            other => panic!("unexpected action {:?}", other),
        }
    }
    assert_eq!(notified, vec![0, 1, 2, 3, 4]);
    for c in 0..5 {
        assert!(s.is_connected(c));
    }
    assert!(!s.is_connected(5));
}

#[test]
fn client_gone_leaves_the_table() {
    let mut s = ProtocolState::new();
    assert_eq!(s.on_event(LoopEvent::ClientConnected), LoopAction::NotifyNewClient(0));
    assert_eq!(s.on_event(LoopEvent::ClientGone(0)), LoopAction::Idle);
    assert!(!s.is_connected(0));
    assert_eq!(s.on_event(LoopEvent::ClientGone(7)), LoopAction::Idle);
}

#[test]
fn destroy_requests_are_removed_once_in_order() {
    let mut s = with_globals(6);
    for h in [4, 1, 5, 0] {
        assert_eq!(s.request_destroy(h), DestroyRequest::Queued);
    }
    assert_eq!(s.pending(), vec![4, 1, 5, 0]);
    let mut removed = Vec::new();
    for _ in 0..4 {
        match s.on_event(LoopEvent::DestroyReady) {
            LoopAction::RemoveGlobal(h) => removed.push(h),
            other => panic!("unexpected action {:?}", other),
        }
    }
    assert_eq!(removed, vec![4, 1, 5, 0]);
    assert_eq!(s.on_event(LoopEvent::DestroyReady), LoopAction::Idle);
    for h in [0, 1, 4, 5] {
        assert!(!s.is_live(h));
    }
    assert!(s.is_live(2));
    assert!(s.is_live(3));
}

#[test]
fn destroy_request_for_unknown_or_queued_handle_is_refused() {
    let mut s = with_globals(2);
    assert_eq!(s.request_destroy(9), DestroyRequest::NotLive);
    assert_eq!(s.request_destroy(1), DestroyRequest::Queued);
    assert_eq!(s.request_destroy(1), DestroyRequest::NotLive);
    assert_eq!(s.on_event(LoopEvent::DestroyReady), LoopAction::RemoveGlobal(1));
    assert_eq!(s.request_destroy(1), DestroyRequest::NotLive);
    assert_eq!(s.pending(), Vec::<usize>::new());
}

#[test]
fn destroy_request_on_full_queue_waits_for_the_loop() {
    let mut s = with_globals(DESTROY_QUEUE_CAPACITY + 1);
    for h in 0..DESTROY_QUEUE_CAPACITY {
        assert_eq!(s.request_destroy(h), DestroyRequest::Queued);
    }
    let extra = DESTROY_QUEUE_CAPACITY;
    assert_eq!(s.request_destroy(extra), DestroyRequest::Full);
    assert_eq!(s.pending().len(), DESTROY_QUEUE_CAPACITY);
    assert!(!s.pending().contains(&extra));
    assert_eq!(s.on_event(LoopEvent::DestroyReady), LoopAction::RemoveGlobal(0));
    assert_eq!(s.request_destroy(extra), DestroyRequest::Queued);
    assert_eq!(s.pending().last(), Some(&extra));
}

#[test]
fn readable_clients_are_dispatched() {
    let mut s = ProtocolState::new();
    assert_eq!(s.on_event(LoopEvent::ClientsReadable), LoopAction::DispatchAndFlush);
    assert!(s.is_running());
}

#[test]
fn failure_ends_the_loop() {
    let mut s = ProtocolState::new();
    assert_eq!(s.on_event(LoopEvent::Failed), LoopAction::Stop);
    assert!(!s.is_running());
    assert_eq!(s.on_event(LoopEvent::ClientsReadable), LoopAction::Stop);
}

#[test]
fn startup_on_egl_backend_runs_the_loop() {
    assert_eq!(require_egl(GraphicsBackend::OpenGlesEgl), Ok(()));
    let mut s = ProtocolState::new();
    assert!(s.is_running());
    assert_eq!(s.on_event(LoopEvent::ClientsReadable), LoopAction::DispatchAndFlush);
}

#[test]
fn startup_on_other_backend_fails() {
    assert_eq!(require_egl(GraphicsBackend::Other), Err(StartupError::NotEgl));
}

#[test]
fn cancel_after_accept_stops_at_once() {
    let mut s = ProtocolState::new();
    assert_eq!(s.on_event(LoopEvent::ClientConnected), LoopAction::NotifyNewClient(0));
    assert_eq!(s.on_event(LoopEvent::Cancel), LoopAction::Stop);
    assert!(!s.is_running());
    assert!(s.is_connected(0));
    for ev in [
        LoopEvent::DestroyReady,
        LoopEvent::ClientConnected,
        LoopEvent::ClientsReadable,
        LoopEvent::ClientGone(0),
    ] {
        assert_eq!(s.on_event(ev), LoopAction::Stop);
    }
    assert!(s.is_connected(0));
}

#[test]
fn cancel_leaves_queued_globals_in_place() {
    let mut s = with_globals(3);
    assert_eq!(s.request_destroy(2), DestroyRequest::Queued);
    assert_eq!(s.on_event(LoopEvent::Cancel), LoopAction::Stop);
    assert_eq!(s.on_event(LoopEvent::DestroyReady), LoopAction::Stop);
    assert!(s.is_live(2));
    assert_eq!(s.pending(), vec![2]);
}

#[test]
fn full_queue_and_client_connect_are_both_served() {
    let mut s = with_globals(DESTROY_QUEUE_CAPACITY);
    for h in 0..DESTROY_QUEUE_CAPACITY {
        assert_eq!(s.request_destroy(h), DestroyRequest::Queued);
    }
    let mut removed = Vec::new();
    let mut notified = Vec::new();
    let mut events = vec![LoopEvent::DestroyReady; DESTROY_QUEUE_CAPACITY];
    events.insert(3, LoopEvent::ClientConnected);
    for ev in events {
        match s.on_event(ev) {
            LoopAction::RemoveGlobal(h) => removed.push(h),
            LoopAction::NotifyNewClient(c) => notified.push(c),
            other => panic!("unexpected action {:?}", other),
        }
    }
    assert_eq!(removed, (0..DESTROY_QUEUE_CAPACITY).collect::<Vec<_>>());
    assert_eq!(notified, vec![0]);
    assert!(s.is_connected(0));
    for h in 0..DESTROY_QUEUE_CAPACITY {
        assert!(!s.is_live(h));
    }
    assert_eq!(s.on_event(LoopEvent::DestroyReady), LoopAction::Idle);
}
