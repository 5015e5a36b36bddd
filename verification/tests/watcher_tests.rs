use prompt_vault::vault_watcher::{
    VaultWatcherState, WatchAction, DEBOUNCE_MS, DEBOUNCE_NANOS, NANOS_PER_MS,
};

/// The time of the given number of milliseconds, in nanoseconds.
fn ms(n: u64) -> u64 {
    n * NANOS_PER_MS
}

#[test]
fn first_event_gives_a_signal() {
    let mut state = VaultWatcherState::new();
    assert!(state.on_event(ms(0)));
    assert_eq!(state.last_emit, Some(ms(0)));
}

#[test]
fn two_events_within_the_window_give_one_signal() {
    let mut state = VaultWatcherState::new();
    assert!(state.on_event(ms(1_000)));
    assert!(!state.on_event(ms(1_000)));
    assert!(!state.on_event(ms(1_249)));
    assert_eq!(state.last_emit, Some(ms(1_000)));
}

#[test]
fn event_at_the_end_of_the_window_gives_a_signal() {
    let mut state = VaultWatcherState::new();
    assert_eq!(DEBOUNCE_MS, 250);
    assert_eq!(DEBOUNCE_NANOS, 250_000_000);
    assert!(state.on_event(ms(1_000)));
    assert!(state.on_event(ms(1_250)));
    assert_eq!(state.last_emit, Some(ms(1_250)));
    assert!(!state.on_event(ms(1_499)));
    assert!(state.on_event(ms(1_500)));
}

#[test]
fn dropped_events_do_not_extend_the_window() {
    let mut state = VaultWatcherState::new();
    assert!(state.on_event(ms(0)));
    assert!(!state.on_event(ms(200)));
    assert!(state.on_event(ms(260)));
}

#[test]
fn event_before_the_last_signal_is_dropped() {
    let mut state = VaultWatcherState { path: None, last_emit: Some(ms(5_000)) };
    assert!(!state.on_event(ms(10)));
    assert_eq!(state.last_emit, Some(ms(5_000)));
}

#[test]
fn request_keeps_a_watch_on_the_same_path() {
    let mut state = VaultWatcherState::new();
    assert_eq!(state.request("/vault"), WatchAction::Replace);
    state.watching("/vault".to_string());
    assert_eq!(state.request("/vault"), WatchAction::Keep);
    assert_eq!(state.request("/other"), WatchAction::Replace);
    state.watching("/other".to_string());
    assert_eq!(state.path, Some("/other".to_string()));
    assert_eq!(state.request("/vault"), WatchAction::Replace);
}

#[test]
fn replacing_the_watch_keeps_the_time_of_the_last_signal() {
    let mut state = VaultWatcherState::new();
    state.watching("/vault".to_string());
    assert!(state.on_event(ms(100)));
    state.watching("/other".to_string());
    assert_eq!(state.last_emit, Some(ms(100)));
    assert!(!state.on_event(ms(200)));
}

#[test]
fn window_is_measured_to_the_nanosecond() {
    let mut state = VaultWatcherState::new();
    assert!(state.on_event(ms(1_000) + 999_999));
    assert!(!state.on_event(ms(1_250) + 999_998));
    assert!(state.on_event(ms(1_250) + 999_999));
    let mut state = VaultWatcherState::new();
    assert!(state.on_event(999_999));
    assert!(!state.on_event(ms(250)));
}
