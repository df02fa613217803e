//! A one-shot countdown advanced by the frame time.

use vstd::prelude::*;

verus! {

/// A timer that runs once. It accumulates elapsed time until its duration is
/// reached; on the tick that reaches it the timer has "just finished", and on
/// every later tick it is merely finished.
#[derive(Clone, Copy, Debug, PartialEq, Eq, Structural)]
pub struct Timer {
    pub duration_ms: u32,
    pub elapsed_ms: u32,
    pub finished: bool,
    pub just_finished: bool,
}

impl Timer {
    /// A fresh timer of the given duration.
    pub open spec fn started(duration_ms: u32) -> Timer {
        Timer { duration_ms, elapsed_ms: 0, finished: false, just_finished: false }
    }

    /// The timer after `dt_ms` more milliseconds.
    pub open spec fn ticked(self, dt_ms: u32) -> Timer {
        if self.finished {
            Timer { just_finished: false, ..self }
        } else if self.elapsed_ms + dt_ms >= self.duration_ms {
            Timer { elapsed_ms: self.duration_ms, finished: true, just_finished: true, ..self }
        } else {
            Timer {
                elapsed_ms: (self.elapsed_ms + dt_ms) as u32,
                finished: false,
                just_finished: false,
                ..self
            }
        }
    }

    /// Creates a timer of the given duration with no time elapsed.
    pub fn from_millis(duration_ms: u32) -> (t: Timer)
        ensures
            t == Timer::started(duration_ms),
    {
        Timer { duration_ms, elapsed_ms: 0, finished: false, just_finished: false }
    }

    /// Advances the timer by `dt_ms` milliseconds.
    pub fn tick(&mut self, dt_ms: u32)
        ensures
            *final(self) == old(self).ticked(dt_ms),
    {
        if self.finished {
            self.just_finished = false;
        } else if self.elapsed_ms as u64 + dt_ms as u64 >= self.duration_ms as u64 {
            self.elapsed_ms = self.duration_ms;
            self.finished = true;
            self.just_finished = true;
        } else {
            self.elapsed_ms = self.elapsed_ms + dt_ms;
            self.just_finished = false;
        }
    }

    /// Replaces the duration; the elapsed time is kept, and whether the timer
    /// has finished is decided again only by the next tick.
    pub fn set_duration(&mut self, duration_ms: u32)
        ensures
            *final(self) == (Timer { duration_ms, ..*old(self) }),
    {
        self.duration_ms = duration_ms;
    }

    /// Starts the timer again: no time has elapsed and it has not finished.
    pub fn reset(&mut self)
        ensures
            *final(self) == Timer::started(old(self).duration_ms),
    {
        self.elapsed_ms = 0;
        self.finished = false;
        self.just_finished = false;
    }

    /// Whether the duration has been reached.
    pub fn finished(&self) -> (r: bool)
        ensures
            r == self.finished,
    {
        self.finished
    }

    /// Whether the duration was reached by the latest tick.
    pub fn just_finished(&self) -> (r: bool)
        ensures
            r == self.just_finished,
    {
        self.just_finished
    }

    /// The duration in milliseconds.
    pub fn duration(&self) -> (r: u32)
        ensures
            r == self.duration_ms,
    {
        self.duration_ms
    }
}

/// A timer fires at most once: after the tick on which it has just finished,
/// no later tick reports so again.
pub proof fn lemma_timer_fires_once(t: Timer, first_ms: u32, second_ms: u32)
    ensures
        t.ticked(first_ms).just_finished ==> !t.ticked(first_ms).ticked(second_ms).just_finished,
        t.ticked(first_ms).finished ==> t.ticked(first_ms).ticked(second_ms).finished,
{
}

} // verus!
