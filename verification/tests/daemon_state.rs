use lunaris_portal::lifecycle::{is_running, needs_spawn, picker_binary_path, ChildState, PROD_PICKER_PATH};
use lunaris_portal::state::{IdleAction, IdleTimer, RequestCounter, IDLE_TIMEOUT_MS};

#[test]
fn counter_tracks_open_requests() {
    let mut c = RequestCounter::new();
    assert!(!c.has_open_requests());
    c.track_request();
    c.track_request();
    assert!(c.has_open_requests());
    c.release();
    assert!(c.has_open_requests());
    c.release();
    assert!(!c.has_open_requests());
}

#[test]
fn idle_timeout_never_fires_with_open_request() {
    let mut t = IdleTimer::new(0);
    assert_eq!(t.tick(10 * IDLE_TIMEOUT_MS, true), IdleAction::Continue);
    assert_eq!(t.tick(10 * IDLE_TIMEOUT_MS + 1000, false), IdleAction::Continue);
    assert_eq!(t.tick(11 * IDLE_TIMEOUT_MS - 1, false), IdleAction::Continue);
    assert_eq!(t.tick(11 * IDLE_TIMEOUT_MS, false), IdleAction::Exit);
}

#[test]
fn idle_timeout_fires_after_window() {
    let mut t = IdleTimer::new(5000);
    assert_eq!(t.tick(5000 + IDLE_TIMEOUT_MS - 1, false), IdleAction::Continue);
    assert_eq!(t.tick(5000 + IDLE_TIMEOUT_MS, false), IdleAction::Exit);
    assert_eq!(t.tick(1000, false), IdleAction::Continue);
}

#[test]
fn picker_path_override() {
    assert_eq!(picker_binary_path(Some(b"/tmp/custom-picker".to_vec())), b"/tmp/custom-picker".to_vec());
    assert_eq!(picker_binary_path(None), PROD_PICKER_PATH.as_bytes().to_vec());
}

#[test]
fn spawn_only_without_running_child() {
    assert!(needs_spawn(ChildState::NoChild));
    assert!(needs_spawn(ChildState::Exited));
    assert!(needs_spawn(ChildState::StatusUnknown));
    assert!(!needs_spawn(ChildState::Running));
    assert!(is_running(ChildState::Running));
    assert!(!is_running(ChildState::NoChild));
}
