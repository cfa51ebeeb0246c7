//! Watching the bacon locations file for a double save: two modifications
//! within ten seconds of each other.

use vstd::prelude::*;

verus! {

/// How close two saves must be to count as a double save: 10 seconds, in
/// nanoseconds. A later save more than this after the first starts a new
/// window.
pub const SAVE_WINDOW_NANOS: u128 = 10_000_000_000;

/// How long the whole watch lasts at most: 12 seconds, in nanoseconds.
pub const WATCH_LIMIT_NANOS: u128 = 12_000_000_000;

/// How long the watcher waits for the next event before the watch ends
/// without a double save: 10 seconds.
pub const WATCH_RECEIVE_TIMEOUT_SECS: u64 = 10;

/// How long the watch pauses after each event: 2 seconds.
pub const WATCH_PAUSE_SECS: u64 = 2;

/// What the file watcher reported, with times in nanoseconds since the watch
/// started.
#[derive(Clone, Copy, Debug, PartialEq, Eq, Structural)]
pub enum WatchEvent {
    /// The file was modified at the given time.
    Modified(u128),
    /// Some other change to the file.
    Other,
    /// Nothing was reported while the watcher waited.
    Quiet,
}

/// What the watch does after an event.
#[derive(Clone, Copy, Debug, PartialEq, Eq, Structural)]
pub enum WatchStep {
    /// A first save: the window starts now.
    FirstSave,
    /// A save too long after the first one: the window starts again.
    WindowRestarted,
    /// A second save within the window: the watch ends and reports it.
    DoubleSave,
    /// An event that is not a modification: nothing changes.
    Ignored,
    /// No event came: the watch ends without a double save.
    NoEvent,
}

/// The time from `first` to `now`, zero when `now` is earlier (as
/// `Instant::duration_since` saturates).
pub open spec fn time_since(first: u128, now: u128) -> int {
    if now >= first {
        now - first
    } else {
        0
    }
}

/// The watch after an event, given the time of the save that opened the
/// current window (`None` before any save), and what it does.
pub open spec fn spec_watch_step(first: Option<u128>, event: WatchEvent) -> (Option<u128>, WatchStep) {
    match event {
        WatchEvent::Quiet => (first, WatchStep::NoEvent),
        WatchEvent::Other => (first, WatchStep::Ignored),
        WatchEvent::Modified(now) => match first {
            None => (Some(now), WatchStep::FirstSave),
            Some(f) => if time_since(f, now) > SAVE_WINDOW_NANOS {
                (Some(now), WatchStep::WindowRestarted)
            } else {
                (first, WatchStep::DoubleSave)
            },
        },
    }
}

/// The state of one watch of the bacon locations file: the time of the save
/// that opened the current window, if any. While a window is open exactly one
/// save has been counted in it, so the next save within the window is the
/// second one.
pub struct SaveWatch {
    first_modify: Option<u128>,
}

impl SaveWatch {
    /// The time of the save that opened the current window, if any.
    pub closed spec fn window_start(self) -> Option<u128> {
        self.first_modify
    }

    /// A watch that has seen no save yet.
    pub fn new() -> (w: Self)
        ensures
            w.window_start() is None,
    {
        SaveWatch { first_modify: None }
    }

    /// Takes one event of the file watcher into account.
    pub fn on_event(&mut self, event: WatchEvent) -> (step: WatchStep)
        ensures
            (final(self).window_start(), step) == spec_watch_step(old(self).window_start(), event),
    {
        match event {
            WatchEvent::Quiet => WatchStep::NoEvent,
            WatchEvent::Other => WatchStep::Ignored,
            WatchEvent::Modified(now) => match self.first_modify {
                None => {
                    self.first_modify = Some(now);
                    WatchStep::FirstSave
                },
                Some(first) => {
                    let since = if now >= first {
                        now - first
                    } else {
                        0
                    };
                    if since > SAVE_WINDOW_NANOS {
                        self.first_modify = Some(now);
                        WatchStep::WindowRestarted
                    } else {
                        WatchStep::DoubleSave
                    }
                },
            },
        }
    }
}

/// Whether a watch that has run for `elapsed` nanoseconds is over.
pub fn watch_expired(elapsed: u128) -> (b: bool)
    ensures
        b == (elapsed > WATCH_LIMIT_NANOS),
{
    elapsed > WATCH_LIMIT_NANOS
}


/// Two saves within ten seconds of each other are a double save: from a
/// fresh watch, a save at `t1` and another at `t2` no more than the window
/// later end the watch with a double save; further apart, the second save
/// only restarts the window.
pub proof fn lemma_two_saves(t1: u128, t2: u128)
    ensures
        spec_watch_step(None, WatchEvent::Modified(t1)) == (Some(t1), WatchStep::FirstSave),
        time_since(t1, t2) <= SAVE_WINDOW_NANOS ==> spec_watch_step(Some(t1), WatchEvent::Modified(t2)).1
            == WatchStep::DoubleSave,
        time_since(t1, t2) > SAVE_WINDOW_NANOS ==> spec_watch_step(Some(t1), WatchEvent::Modified(t2))
            == (Some(t2), WatchStep::WindowRestarted),
{
}

/// The window is measured as the plain time between the two saves: a save at
/// `now` while the window opened at `first` is a double save exactly when
/// `now` is at most ten seconds after `first` (or earlier than it, the time
/// between them then counting as zero); a later save restarts the window at
/// `now`. A fresh watch with saves at `t1` and then `t2`, `t2 - t1` at most ten
/// seconds, reports a double save.
pub proof fn lemma_save_window_in_plain_time(first: u128, now: u128, t1: u128, t2: u128)
    ensures
        first <= now && now - first <= SAVE_WINDOW_NANOS ==> spec_watch_step(
            Some(first),
            WatchEvent::Modified(now),
        ) == (Some(first), WatchStep::DoubleSave),
        now < first ==> spec_watch_step(Some(first), WatchEvent::Modified(now)) == (
            Some(first),
            WatchStep::DoubleSave,
        ),
        first <= now && now - first > SAVE_WINDOW_NANOS ==> spec_watch_step(
            Some(first),
            WatchEvent::Modified(now),
        ) == (Some(now), WatchStep::WindowRestarted),
        t1 <= t2 && t2 - t1 <= 10_000_000_000 ==> spec_watch_step(
            spec_watch_step(None, WatchEvent::Modified(t1)).0,
            WatchEvent::Modified(t2),
        ).1 == WatchStep::DoubleSave,
{
}

/// A single save never ends the watch with a double save, and a quiet wait
/// ends it without one, whatever came before.
pub proof fn lemma_no_double_save_without_second(first: Option<u128>, t: u128)
    ensures
        spec_watch_step(None, WatchEvent::Modified(t)).1 != WatchStep::DoubleSave,
        spec_watch_step(first, WatchEvent::Quiet) == (first, WatchStep::NoEvent),
        spec_watch_step(first, WatchEvent::Other) == (first, WatchStep::Ignored),
{
}

} // verus!
