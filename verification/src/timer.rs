//! Millisecond-resolution timers, the time base of every gameplay rule.
//!
//! A timer is either one-shot (`repeating == false`), whose elapsed time
//! saturates at its duration, or repeating, whose elapsed time wraps around
//! the duration on each completion. `just_finished` records whether the most
//! recent tick completed the timer.

use vstd::prelude::*;

verus! {

/// A one-shot or repeating countdown driven by frame deltas.
#[derive(Clone, Copy, Debug, PartialEq, Eq, Structural)]
pub struct GameTimer {
    /// Full duration of one cycle, in milliseconds. Always at least 1.
    pub duration_ms: u64,
    /// Time accumulated so far, in milliseconds.
    pub elapsed_ms: u64,
    /// Whether the timer restarts a new cycle when it completes.
    pub repeating: bool,
    /// Whether the most recent tick completed the timer (or, for a repeating
    /// timer, completed at least one cycle).
    pub just_finished: bool,
}

impl GameTimer {
    /// Structural invariant: a one-shot timer saturates at its duration, a
    /// repeating timer always holds a position strictly inside its cycle.
    pub open spec fn wf(self) -> bool {
        &&& self.duration_ms >= 1
        &&& if self.repeating {
            self.elapsed_ms < self.duration_ms
        } else {
            self.elapsed_ms <= self.duration_ms
        }
    }

    /// A finished timer: a one-shot that has run out, or a repeating timer
    /// that completed a cycle on its most recent tick.
    pub open spec fn spec_finished(self) -> bool {
        if self.repeating {
            self.just_finished
        } else {
            self.elapsed_ms >= self.duration_ms
        }
    }

    /// The state after advancing by `delta_ms`.
    pub open spec fn spec_ticked(self, delta_ms: u64) -> GameTimer {
        let remaining = self.duration_ms - self.elapsed_ms;
        if self.repeating {
            if delta_ms < remaining {
                GameTimer {
                    duration_ms: self.duration_ms,
                    elapsed_ms: (self.elapsed_ms + delta_ms) as u64,
                    repeating: true,
                    just_finished: false,
                }
            } else {
                GameTimer {
                    duration_ms: self.duration_ms,
                    elapsed_ms: ((delta_ms - remaining) as u64 % self.duration_ms) as u64,
                    repeating: true,
                    just_finished: true,
                }
            }
        } else {
            GameTimer {
                duration_ms: self.duration_ms,
                elapsed_ms: if delta_ms >= remaining {
                    self.duration_ms
                } else {
                    (self.elapsed_ms + delta_ms) as u64
                },
                repeating: false,
                just_finished: remaining > 0 && delta_ms >= remaining,
            }
        }
    }

    /// A fresh one-shot timer.
    pub fn new_once(duration_ms: u64) -> (r: GameTimer)
        requires
            duration_ms >= 1,
        ensures
            r == (GameTimer {
                duration_ms,
                elapsed_ms: 0u64,
                repeating: false,
                just_finished: false,
            }),
            r.wf(),
    {
        GameTimer { duration_ms, elapsed_ms: 0, repeating: false, just_finished: false }
    }

    /// A fresh repeating timer.
    pub fn new_repeating(duration_ms: u64) -> (r: GameTimer)
        requires
            duration_ms >= 1,
        ensures
            r == (GameTimer {
                duration_ms,
                elapsed_ms: 0u64,
                repeating: true,
                just_finished: false,
            }),
            r.wf(),
    {
        GameTimer { duration_ms, elapsed_ms: 0, repeating: true, just_finished: false }
    }

    /// Advance the timer by a frame delta.
    pub fn tick(&mut self, delta_ms: u64)
        requires
            old(self).wf(),
        ensures
            *final(self) == old(self).spec_ticked(delta_ms),
            final(self).wf(),
    {
        let remaining = self.duration_ms - self.elapsed_ms;
        if self.repeating {
            if delta_ms < remaining {
                self.elapsed_ms = self.elapsed_ms + delta_ms;
                self.just_finished = false;
            } else {
                self.elapsed_ms = (delta_ms - remaining) % self.duration_ms;
                self.just_finished = true;
            }
        } else {
            self.just_finished = remaining > 0 && delta_ms >= remaining;
            if delta_ms >= remaining {
                self.elapsed_ms = self.duration_ms;
            } else {
                self.elapsed_ms = self.elapsed_ms + delta_ms;
            }
        }
    }

    /// Whether the timer has finished.
    pub fn finished(&self) -> (r: bool)
        ensures
            r == self.spec_finished(),
    {
        if self.repeating {
            self.just_finished
        } else {
            self.elapsed_ms >= self.duration_ms
        }
    }

    /// Whether the most recent tick completed the timer.
    pub fn just_finished(&self) -> (r: bool)
        ensures
            r == self.just_finished,
    {
        self.just_finished
    }

    /// Restart the timer from zero.
    pub fn reset(&mut self)
        ensures
            *final(self) == (GameTimer {
                duration_ms: old(self).duration_ms,
                elapsed_ms: 0u64,
                repeating: old(self).repeating,
                just_finished: false,
            }),
            old(self).wf() ==> final(self).wf(),
    {
        self.elapsed_ms = 0;
        self.just_finished = false;
    }

    /// Elapsed milliseconds of the current cycle.
    pub fn elapsed_ms(&self) -> (r: u64)
        ensures
            r == self.elapsed_ms,
    {
        self.elapsed_ms
    }

    /// Duration of one cycle in milliseconds.
    pub fn duration_ms(&self) -> (r: u64)
        ensures
            r == self.duration_ms,
    {
        self.duration_ms
    }
}

/// Sum of a sequence of frame deltas.
pub open spec fn spec_sum(deltas: Seq<u64>) -> int
    decreases deltas.len(),
{
    if deltas.len() == 0 {
        0
    } else {
        spec_sum(deltas.drop_last()) + deltas.last()
    }
}

/// The state of a timer after a whole sequence of ticks.
pub open spec fn spec_ticked_seq(t: GameTimer, deltas: Seq<u64>) -> GameTimer
    decreases deltas.len(),
{
    if deltas.len() == 0 {
        t
    } else {
        spec_ticked_seq(t, deltas.drop_last()).spec_ticked(deltas.last())
    }
}

/// A sequence of ticks whose total stays under the remaining time leaves a
/// one-shot timer unfinished: its elapsed time is exactly the old elapsed
/// time plus the total.
pub proof fn lemma_ticks_below_duration(t: GameTimer, deltas: Seq<u64>)
    requires
        t.wf(),
        !t.repeating,
        t.elapsed_ms + spec_sum(deltas) < t.duration_ms,
    ensures
        spec_ticked_seq(t, deltas).wf(),
        !spec_ticked_seq(t, deltas).repeating,
        spec_ticked_seq(t, deltas).duration_ms == t.duration_ms,
        spec_ticked_seq(t, deltas).elapsed_ms == t.elapsed_ms + spec_sum(deltas),
        !spec_ticked_seq(t, deltas).spec_finished(),
    decreases deltas.len(),
{
    if deltas.len() == 0 {
    } else {
        let front = deltas.drop_last();
        assert(spec_sum(deltas) == spec_sum(front) + deltas.last());
        lemma_ticks_below_duration(t, front);
    }
}

} // verus!
