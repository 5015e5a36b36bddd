//! The watch on the vault's directory.
//!
//! Events of the file system are noisy. The watcher passes on at most one
//! signal per window: an event that comes less than `DEBOUNCE_MS`
//! milliseconds after the last signal is dropped, and nothing is kept for
//! later.

use vstd::prelude::*;

verus! {

/// Length of the window after a signal in which events are dropped, in
/// milliseconds.
pub const DEBOUNCE_MS: u64 = 250;

/// Nanoseconds in a millisecond.
pub const NANOS_PER_MS: u64 = 1_000_000;

/// Length of the window in nanoseconds, the unit in which times are given.
pub const DEBOUNCE_NANOS: u64 = DEBOUNCE_MS * NANOS_PER_MS;

/// The state of the watch: the directory that is watched, if any, and the
/// time of the last signal, if there was one. Times are nanoseconds of a
/// clock that never runs backwards, so that no part of a time is cut off.
#[derive(Debug, Clone, PartialEq, Eq)]
pub struct VaultWatcherState {
    pub path: Option<String>,
    pub last_emit: Option<u64>,
}

/// What is to be done for a request to watch a directory.
#[derive(Debug, Clone, Copy, PartialEq, Eq)]
pub enum WatchAction {
    /// The directory is watched already.
    Keep,
    /// Give up the current watch, if there is one, and start one on the
    /// directory asked for.
    Replace,
}

/// Whether an event at time `now` is passed on when the last signal was at
/// `last`.
pub open spec fn emits(last: Option<u64>, now: u64) -> bool {
    match last {
        Some(t) => now >= t && now - t >= DEBOUNCE_NANOS,
        None => true,
    }
}

/// The time of the last signal after an event at time `now`.
pub open spec fn after_event(last: Option<u64>, now: u64) -> Option<u64> {
    if emits(last, now) {
        Some(now)
    } else {
        last
    }
}

/// How many signals there are among the two answers.
pub open spec fn signals(first: bool, second: bool) -> nat {
    (if first {
        1nat
    } else {
        0nat
    }) + (if second {
        1nat
    } else {
        0nat
    })
}

impl VaultWatcherState {
    /// A state in which nothing is watched and no signal was given.
    pub fn new() -> (state: Self)
        ensures
            state.path is None,
            state.last_emit is None,
    {
        VaultWatcherState { path: None, last_emit: None }
    }

    /// What to do for a request to watch `path`: nothing where that very
    /// directory is watched, else replace the watch.
    pub fn request(&self, path: &str) -> (action: WatchAction)
        ensures
            action is Keep <==> (self.path matches Some(current) && current@ == path@),
    {
        match &self.path {
            Some(current) => {
                if *current == path.to_string() {
                    WatchAction::Keep
                } else {
                    WatchAction::Replace
                }
            },
            None => WatchAction::Replace,
        }
    }

    /// Records that `path` is watched from now on. The time of the last
    /// signal stays.
    pub fn watching(&mut self, path: String)
        ensures
            final(self).path == Some(path),
            final(self).last_emit == old(self).last_emit,
    {
        self.path = Some(path);
    }

    /// Takes an event of the file system at time `now` and says whether a
    /// signal is to be passed on. It is where no signal was given yet or
    /// the last one is at least `DEBOUNCE_NANOS` old; `now` is then the time
    /// of the last signal. Otherwise the event is dropped and nothing
    /// changes.
    pub fn on_event(&mut self, now: u64) -> (signal: bool)
        ensures
            signal == emits(old(self).last_emit, now),
            final(self).last_emit == after_event(old(self).last_emit, now),
            final(self).path == old(self).path,
    {
        let signal = match self.last_emit {
            Some(t) => now >= t && now - t >= DEBOUNCE_NANOS,
            None => true,
        };
        if signal {
            self.last_emit = Some(now);
        }
        signal
    }
}

/// Two events less than `DEBOUNCE_NANOS` apart give exactly one signal,
/// unless both fall into the window of an earlier signal, in which case
/// they give none.
pub proof fn lemma_two_events_one_signal(last: Option<u64>, first: u64, second: u64)
    requires
        first <= second,
        second - first < DEBOUNCE_NANOS,
    ensures
        signals(emits(last, first), emits(after_event(last, first), second)) == if emits(
            last,
            second,
        ) {
            1nat
        } else {
            0nat
        },
{
}

/// After a signal, every event within the window is dropped.
pub proof fn lemma_window_is_silent(last: Option<u64>, signal_at: u64, now: u64)
    requires
        emits(last, signal_at),
        signal_at <= now,
        now - signal_at < DEBOUNCE_NANOS,
    ensures
        !emits(after_event(last, signal_at), now),
        after_event(after_event(last, signal_at), now) == Some(signal_at),
{
}


impl Default for VaultWatcherState {
    fn default() -> (state: Self)
        ensures
            state.path is None,
            state.last_emit is None,
    {
        VaultWatcherState::new()
    }
}

} // verus!
