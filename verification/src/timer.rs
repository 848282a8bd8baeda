//! Game timer with pause and resume, displayed as `MM:SS`.

use std::time::Instant;
use vstd::prelude::*;

use crate::clock::{millis_since, now};
use crate::text::{push_char, push_two_digits, two_digits};

verus! {

/// Tracks elapsed game time with pause/resume support.
pub struct GameTimer {
    /// Milliseconds accumulated over the segments that have been closed.
    pub elapsed_ms: u64,
    /// Whether the timer is running.
    pub running: bool,
    /// When the current running segment started.
    pub last_tick: Option<Instant>,
}

/// `MM:SS` for a number of seconds: minutes and seconds, each zero-padded to
/// two digits (minutes may take more than two).
pub open spec fn mm_ss(secs: nat) -> Seq<char> {
    two_digits(secs / 60) + seq![':'] + two_digits(secs % 60)
}

/// `a + b`, capped at `u64::MAX`.
pub open spec fn add_capped(a: u64, b: u64) -> u64 {
    if a + b > u64::MAX { u64::MAX } else { (a + b) as u64 }
}

/// The accumulated milliseconds of `t` once `segment_ms` milliseconds of the
/// running segment are counted: the segment counts only while `t` runs and
/// has a segment start.
pub open spec fn total_elapsed(t: GameTimer, segment_ms: u64) -> u64 {
    if t.running && t.last_tick is Some { add_capped(t.elapsed_ms, segment_ms) } else { t.elapsed_ms }
}

/// Folding two segments one after the other counts each once: the stored time
/// grows by their sum, capped at `u64::MAX`, as `update_at` leaves it after
/// two consecutive calls.
pub proof fn lemma_segments_add_up(elapsed: u64, first: u64, second: u64)
    ensures
        add_capped(add_capped(elapsed, first), second) as int
            == if elapsed + first + second > u64::MAX { u64::MAX as int } else { elapsed + first + second },
{
}

impl GameTimer {
    /// A stopped timer at zero.
    pub fn new() -> (t: Self)
        ensures
            t.elapsed_ms == 0,
            !t.running,
            t.last_tick is None,
    {
        GameTimer { elapsed_ms: 0, running: false, last_tick: None }
    }

    /// Resets the timer to zero and stops it.
    pub fn reset(&mut self)
        ensures
            final(self).elapsed_ms == 0,
            !final(self).running,
            final(self).last_tick is None,
    {
        self.elapsed_ms = 0;
        self.running = false;
        self.last_tick = None;
    }

    /// Starts a running segment at `tick`; the accumulated time is kept.
    pub fn start_at(&mut self, tick: Instant)
        ensures
            final(self).elapsed_ms == old(self).elapsed_ms,
            final(self).running,
            final(self).last_tick == Some(tick),
    {
        self.running = true;
        self.last_tick = Some(tick);
    }

    /// Starts a running segment now; the accumulated time is kept.
    pub fn start(&mut self)
        ensures
            final(self).elapsed_ms == old(self).elapsed_ms,
            final(self).running,
            final(self).last_tick is Some,
    {
        let tick = now();
        self.start_at(tick);
    }

    /// Closes the running segment: adds `segment_ms` (the time since
    /// `last_tick`) to the accumulated time, capped at `u64::MAX`, and stops.
    /// Does nothing when stopped.
    pub fn pause_after(&mut self, segment_ms: u64)
        ensures
            old(self).running ==> {
                &&& !final(self).running
                &&& final(self).last_tick is None
                &&& final(self).elapsed_ms == if old(self).last_tick is Some {
                    add_capped(old(self).elapsed_ms, segment_ms)
                } else {
                    old(self).elapsed_ms
                }
            },
            !old(self).running ==> *final(self) == *old(self),
    {
        if self.running {
            if self.last_tick.is_some() {
                self.elapsed_ms = self.elapsed_ms.saturating_add(segment_ms);
            }
            self.running = false;
            self.last_tick = None;
        }
    }

    /// Pauses the timer, adding the time since the segment started.
    pub fn pause(&mut self)
        ensures
            !final(self).running,
            old(self).running ==> final(self).last_tick is None,
            !old(self).running ==> *final(self) == *old(self),
            old(self).running && old(self).last_tick is Some ==> exists|segment: u64|
                final(self).elapsed_ms == #[trigger] add_capped(old(self).elapsed_ms, segment),
            !(old(self).running && old(self).last_tick is Some) ==> final(self).elapsed_ms == old(self).elapsed_ms,
    {
        let segment = match &self.last_tick {
            Some(t) => if self.running { millis_since(t) } else { 0 },
            None => 0,
        };
        self.pause_after(segment);
    }

    /// Resumes a stopped timer with a new segment starting at `tick`; does
    /// nothing when it is already running.
    pub fn resume_at(&mut self, tick: Instant)
        ensures
            final(self).elapsed_ms == old(self).elapsed_ms,
            final(self).running,
            old(self).running ==> *final(self) == *old(self),
            !old(self).running ==> final(self).last_tick == Some(tick),
    {
        if !self.running {
            self.running = true;
            self.last_tick = Some(tick);
        }
    }

    /// Resumes a stopped timer with a new segment starting now; does nothing
    /// when it is already running.
    pub fn resume(&mut self)
        ensures
            final(self).elapsed_ms == old(self).elapsed_ms,
            final(self).running,
            old(self).running ==> *final(self) == *old(self),
            !old(self).running ==> final(self).last_tick is Some,
    {
        if !self.running {
            let tick = now();
            self.resume_at(tick);
        }
    }

    /// Folds `segment_ms` (the time since `last_tick`) into the accumulated
    /// time, capped at `u64::MAX`, and starts a new segment at `tick`. Does
    /// nothing when stopped or without a segment start.
    pub fn update_at(&mut self, segment_ms: u64, tick: Instant)
        ensures
            old(self).running && old(self).last_tick is Some ==> {
                &&& final(self).elapsed_ms == add_capped(old(self).elapsed_ms, segment_ms)
                &&& final(self).running
                &&& final(self).last_tick == Some(tick)
            },
            !(old(self).running && old(self).last_tick is Some) ==> *final(self) == *old(self),
    {
        if self.running && self.last_tick.is_some() {
            self.elapsed_ms = self.elapsed_ms.saturating_add(segment_ms);
            self.last_tick = Some(tick);
        }
    }

    /// Folds the time since the segment started into the accumulated time and
    /// starts a new segment now. Does nothing when stopped.
    pub fn update(&mut self)
        ensures
            final(self).running == old(self).running,
            old(self).running && old(self).last_tick is Some ==> {
                &&& exists|segment: u64| final(self).elapsed_ms == #[trigger] add_capped(old(self).elapsed_ms, segment)
                &&& final(self).last_tick is Some
            },
            !(old(self).running && old(self).last_tick is Some) ==> *final(self) == *old(self),
    {
        if self.running {
            if let Some(last) = &self.last_tick {
                let segment = millis_since(last);
                let tick = now();
                self.update_at(segment, tick);
            }
        }
    }

    /// Whole seconds in `total_ms` milliseconds, as the timer reports them
    /// (truncated to 32 bits).
    pub fn whole_seconds(total_ms: u64) -> (s: u32)
        ensures
            s == (total_ms / 1000) as u32,
    {
        (total_ms / 1000) as u32
    }

    /// Total elapsed whole seconds, given `segment_ms`, the time since
    /// `last_tick` (counted only while running).
    pub fn elapsed_seconds_after(&self, segment_ms: u64) -> (s: u32)
        ensures
            s == (total_elapsed(*self, segment_ms) / 1000) as u32,
    {
        let total_ms = if self.running && self.last_tick.is_some() {
            self.elapsed_ms.saturating_add(segment_ms)
        } else {
            self.elapsed_ms
        };
        Self::whole_seconds(total_ms)
    }

    /// Total elapsed whole seconds, including the running segment.
    pub fn elapsed_seconds(&self) -> (s: u32)
        ensures
            !(self.running && self.last_tick is Some) ==> s == (self.elapsed_ms / 1000) as u32,
            self.running && self.last_tick is Some ==> exists|ms: u64| s == (#[trigger] add_capped(self.elapsed_ms, ms) / 1000) as u32,
    {
        let segment = match &self.last_tick {
            Some(t) => if self.running { millis_since(t) } else { 0 },
            None => 0,
        };
        self.elapsed_seconds_after(segment)
    }

    /// `MM:SS` for `secs` seconds.
    pub fn format_seconds(secs: u32) -> (r: String)
        ensures
            r@ == mm_ss(secs as nat),
    {
        let mut r = String::new();
        push_two_digits(&mut r, (secs / 60) as u64);
        push_char(&mut r, ':');
        push_two_digits(&mut r, (secs % 60) as u64);
        r
    }

    /// The elapsed time as `MM:SS`.
    pub fn format_display(&self) -> (r: String)
        ensures
            !(self.running && self.last_tick is Some) ==> r@ == mm_ss(((self.elapsed_ms / 1000) as u32) as nat),
            exists|secs: u32| r@ == mm_ss(secs as nat),
    {
        let secs = self.elapsed_seconds();
        Self::format_seconds(secs)
    }
}

impl Default for GameTimer {
    fn default() -> (t: Self)
        ensures
            t.elapsed_ms == 0,
            !t.running,
            t.last_tick is None,
    {
        Self::new()
    }
}

} // verus!
