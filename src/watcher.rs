//! Decisions of the change watcher: which file-system events concern the
//! watched file, when a burst of them triggers one rebuild, and which
//! directory to subscribe to.

use std::time::Instant;
use vstd::prelude::*;
use crate::text::{contains_text, parent_dir, parent_of, texts};

verus! {

/// Minimum time, in milliseconds, between two accepted change triggers.
pub const DEBOUNCE_MS: u64 = 300;

/// What happened to a path, as far as rebuilding cares.
#[derive(Clone, Copy, PartialEq, Eq, Debug)]
pub enum WatchEventKind {
    Created,
    Modified,
    Other,
}

/// A file-system notification: the paths it concerns and its kind.
#[derive(Debug, Clone, PartialEq, Eq)]
pub struct WatchEvent {
    pub paths: Vec<String>,
    pub kind: WatchEventKind,
}

/// Time passed from `last` to `now` on a monotonic clock; a reading that
/// goes backwards counts as no time at all.
pub open spec fn elapsed_between(last: u64, now: u64) -> int {
    if now >= last {
        now - last
    } else {
        0
    }
}

/// A trigger at `now` is due when a whole window has passed since `last`.
pub open spec fn is_due(last: u64, now: u64, window: u64) -> bool {
    elapsed_between(last, now) >= window
}

/// An event concerns the watched file: it names that exact path, and the
/// path was created or modified (removals and renames away are ignored).
pub open spec fn concerns(e: WatchEvent, watched: Seq<char>) -> bool {
    &&& (e.kind == WatchEventKind::Created || e.kind == WatchEventKind::Modified)
    &&& texts(e.paths@).contains(watched)
}

/// Whether a rebuild is due, given the monotonic times (in milliseconds) of
/// the last accepted trigger and of now.
pub fn should_rebuild_at(last_ms: u64, now_ms: u64, debounce_ms: u64) -> (r: bool)
    ensures
        r == is_due(last_ms, now_ms, debounce_ms),
{
    if now_ms >= last_ms {
        now_ms - last_ms >= debounce_ms
    } else {
        debounce_ms == 0
    }
}

/// Whether `elapsed_ms` milliseconds cover a debounce window.
pub fn window_elapsed(elapsed_ms: u128, debounce_ms: u64) -> (r: bool)
    ensures
        r == (elapsed_ms >= debounce_ms),
{
    elapsed_ms >= debounce_ms as u128
}

#[verifier::external_type_specification]
#[verifier::external_body]
pub struct ExInstant(Instant);

/// `Instant::elapsed`: time passed since the instant on the monotonic
/// clock. It depends on the clock, so nothing is stated of it.
pub assume_specification[ Instant::elapsed ](t: &Instant) -> core::time::Duration;

/// `Duration::as_millis`: the whole milliseconds of a duration. The duration
/// is opaque here, so nothing is stated of it.
pub assume_specification[ core::time::Duration::as_millis ](d: &core::time::Duration) -> u128;

/// Whether at least `debounce_ms` milliseconds have passed since
/// `last_rebuild`. What the clock reads is outside the contract; the
/// decision on the reading is `window_elapsed`.
pub fn should_rebuild(last_rebuild: Instant, debounce_ms: u64) -> bool {
    let elapsed = last_rebuild.elapsed().as_millis();
    window_elapsed(elapsed, debounce_ms)
}

/// The directory to subscribe to for `path`: its parent, so that an editor
/// that saves by renaming a temporary file over it is still seen; the path
/// itself when it has no parent.
pub open spec fn watch_dir_of(path: Seq<char>) -> Seq<char> {
    if parent_of(path).len() == 0 {
        path
    } else {
        parent_of(path)
    }
}

/// Exec counterpart of `watch_dir_of`.
pub fn watch_target(path: &str) -> (r: String)
    ensures
        r@ == watch_dir_of(path@),
{
    let p = parent_dir(path);
    if p.as_str().unicode_len() == 0 {
        String::from_str(path)
    } else {
        p
    }
}

/// Debounced filter for one session's watched file.
pub struct ChangeFilter {
    watched: String,
    window_ms: u64,
    last_ms: u64,
}

impl ChangeFilter {
    pub closed spec fn watched(&self) -> Seq<char> {
        self.watched@
    }

    pub closed spec fn window(&self) -> u64 {
        self.window_ms
    }

    /// Monotonic time of the last accepted trigger.
    pub closed spec fn last(&self) -> u64 {
        self.last_ms
    }

    /// A filter for `watched`; the subscription time `start_ms` counts as the
    /// last trigger, so the first window after it is quiet.
    pub fn new(watched: String, window_ms: u64, start_ms: u64) -> (r: Self)
        ensures
            r.watched() == watched@,
            r.window() == window_ms,
            r.last() == start_ms,
    {
        ChangeFilter { watched, window_ms, last_ms: start_ms }
    }

    /// Whether `event`, arriving at `now_ms`, triggers a rebuild; an accepted
    /// trigger becomes the new last one.
    pub fn accept(&mut self, event: &WatchEvent, now_ms: u64) -> (r: bool)
        ensures
            r == (concerns(*event, old(self).watched()) && is_due(
                old(self).last(),
                now_ms,
                old(self).window(),
            )),
            final(self).watched() == old(self).watched(),
            final(self).window() == old(self).window(),
            final(self).last() == if r {
                now_ms
            } else {
                old(self).last()
            },
    {
        let named = contains_text(&event.paths, self.watched.as_str());
        let kind_ok = match event.kind {
            WatchEventKind::Created => true,
            WatchEventKind::Modified => true,
            WatchEventKind::Other => false,
        };
        if !named || !kind_ok {
            return false;
        }
        if !should_rebuild_at(self.last_ms, now_ms, self.window_ms) {
            return false;
        }
        self.last_ms = now_ms;
        true
    }
}

/// A trigger exactly one window after the last accepted one is accepted and
/// one strictly earlier is not; two triggers that each come at least a
/// window after the one before both fire.
pub proof fn lemma_debounce_window(
    last: u64,
    window: u64,
    t: u64,
    watched: Seq<char>,
    e1: WatchEvent,
    t1: u64,
    e2: WatchEvent,
    t2: u64,
)
    requires
        last <= t,
    ensures
        t - last == window ==> is_due(last, t, window),
        t - last < window ==> !is_due(last, t, window),
        concerns(e1, watched) && concerns(e2, watched) && t1 >= last + window && t2 >= t1
            + window ==> concerns(e1, watched) && is_due(last, t1, window) && concerns(e2, watched)
            && is_due(t1, t2, window),
{
}

} // verus!
