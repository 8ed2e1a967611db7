//! The timing driver: an accumulator of elapsed wall time that releases one
//! instruction slot each time a full instruction period has accumulated, so
//! execution catches up after stalls without tying the instruction rate to
//! the host frame rate.

use vstd::prelude::*;

verus! {

/// Nanoseconds budgeted per executed instruction, from the target rate of
/// 700 instructions per second.
pub const INSTRUCTION_PERIOD_NANOS: u64 = 1_000_000_000 / 700;

/// Nanoseconds between timer decrements, from the 60 Hz timer rate.
pub const TIMER_PERIOD_NANOS: u64 = 1_000_000_000 / 60;

/// An accumulator of elapsed time, drained one fixed period at a time.
pub struct Pacer {
    pub accumulated_nanos: u64,
    pub period_nanos: u64,
}

impl Pacer {
    /// A pacer is well formed when its period is positive.
    pub open spec fn wf(&self) -> bool {
        self.period_nanos > 0
    }

    /// A pacer with nothing accumulated.
    pub fn new(period_nanos: u64) -> (p: Pacer)
        requires
            period_nanos > 0,
        ensures
            p.wf(),
            p.period_nanos == period_nanos,
            p.accumulated_nanos == 0,
    {
        Pacer { accumulated_nanos: 0, period_nanos }
    }

    /// Adds elapsed wall time, saturating at the top of the counter rather
    /// than wrapping.
    pub fn accumulate(&mut self, elapsed_nanos: u64)
        requires
            old(self).wf(),
        ensures
            final(self).wf(),
            final(self).period_nanos == old(self).period_nanos,
            final(self).accumulated_nanos == if old(self).accumulated_nanos + elapsed_nanos
                <= u64::MAX {
                old(self).accumulated_nanos + elapsed_nanos
            } else {
                u64::MAX as int
            },
    {
        if elapsed_nanos <= u64::MAX - self.accumulated_nanos {
            self.accumulated_nanos = self.accumulated_nanos + elapsed_nanos;
        } else {
            self.accumulated_nanos = u64::MAX;
        }
    }

    /// Takes one period out of the accumulator if a full period is there,
    /// and says whether it was: each `true` answer is one instruction slot.
    pub fn try_consume(&mut self) -> (b: bool)
        requires
            old(self).wf(),
        ensures
            final(self).wf(),
            final(self).period_nanos == old(self).period_nanos,
            old(self).accumulated_nanos >= old(self).period_nanos ==> b
                && final(self).accumulated_nanos == old(self).accumulated_nanos - old(
                self,
            ).period_nanos,
            old(self).accumulated_nanos < old(self).period_nanos ==> !b
                && final(self).accumulated_nanos == old(self).accumulated_nanos,
    {
        if self.accumulated_nanos >= self.period_nanos {
            self.accumulated_nanos = self.accumulated_nanos - self.period_nanos;
            true
        } else {
            false
        }
    }
}

} // verus!
