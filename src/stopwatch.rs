//! A stopwatch over a monotonic clock, read in nanoseconds.
use vstd::prelude::*;

verus! {

/// Clock readings are nanoseconds of a monotonic clock; the caller passes
/// the current reading to each operation that needs it.
pub struct Stopwatch {
    /// When the current run began, while running.
    pub start: Option<u64>,
    /// Time accumulated by earlier runs.
    pub elapsed: u64,
    pub paused: bool,
}

/// Nanoseconds from `from` to `to`, or zero if `to` is earlier.
pub open spec fn span(from: u64, to: u64) -> u64 {
    if to >= from {
        (to - from) as u64
    } else {
        0
    }
}

pub open spec fn sat_add(a: u64, b: u64) -> u64 {
    if a + b <= u64::MAX {
        (a + b) as u64
    } else {
        u64::MAX
    }
}

impl Stopwatch {
    /// A stopwatch at zero, not running.
    pub fn new() -> (r: Stopwatch)
        ensures
            r.start is None,
            r.elapsed == 0,
            !r.paused,
    {
        Stopwatch { start: None, elapsed: 0, paused: false }
    }

    /// Starts a stopped stopwatch, or resumes a paused one, at clock reading
    /// `now`. A running stopwatch is left as it is.
    pub fn start(&mut self, now: u64)
        ensures
            old(self).paused ==> *final(self) == (Stopwatch {
                start: Some(now),
                elapsed: old(self).elapsed,
                paused: false,
            }),
            !old(self).paused && old(self).start is None ==> *final(self) == (Stopwatch {
                start: Some(now),
                ..*old(self)
            }),
            !old(self).paused && old(self).start is Some ==> *final(self) == *old(self),
    {
        if self.start.is_none() && !self.paused {
            self.start = Some(now);
        } else if self.paused {
            self.start = Some(now);
            self.paused = false;
        }
    }

    /// Pauses a running stopwatch at clock reading `now`, keeping the time
    /// it ran. Otherwise nothing changes.
    pub fn pause(&mut self, now: u64)
        ensures
            old(self).start is Some && !old(self).paused ==> *final(self) == (Stopwatch {
                start: None,
                elapsed: sat_add(old(self).elapsed, span(old(self).start->Some_0, now)),
                paused: true,
            }),
            !(old(self).start is Some && !old(self).paused) ==> *final(self) == *old(self),
    {
        if let Some(s) = self.start {
            if !self.paused {
                let run = now.saturating_sub(s);
                self.elapsed = self.elapsed.saturating_add(run);
                self.start = None;
                self.paused = true;
            }
        }
    }

    /// Stops the stopwatch and resets it to zero.
    pub fn stop(&mut self)
        ensures
            final(self).start is None,
            final(self).elapsed == 0,
            !final(self).paused,
    {
        self.start = None;
        self.elapsed = 0;
        self.paused = false;
    }

    /// The time measured so far, at clock reading `now`, in nanoseconds.
    pub fn read(&self, now: u64) -> (r: u64)
        ensures
            self.start is Some && !self.paused ==> r == sat_add(
                self.elapsed,
                span(self.start->Some_0, now),
            ),
            !(self.start is Some && !self.paused) ==> r == self.elapsed,
    {
        if let Some(s) = self.start {
            if !self.paused {
                return self.elapsed.saturating_add(now.saturating_sub(s));
            }
        }
        self.elapsed
    }
}

} // verus!
