//! The delay between a bit's spawn and the moment it may touch anything.

use vstd::prelude::*;

verus! {

/// The delay a freshly spawned bit waits, in nanoseconds (half a second).
pub const COALESCE_DELAY: u64 = 500_000_000;

/// A one-shot countdown, in nanoseconds. A bit that carries one is pending:
/// its collider is off, so that bits knocked loose by the same hit do not
/// merge at once. When the countdown ends the timer is taken off the bit and
/// the bit is active from then on.
#[derive(Clone, Copy, Debug, PartialEq, Eq, Structural)]
pub struct CoalesceTimer(pub u64);

impl CoalesceTimer {
    /// Whether the countdown has reached zero.
    pub open spec fn finished(self) -> bool {
        self.0 == 0
    }

    /// The countdown after `delta` more nanoseconds: it stops at zero.
    pub open spec fn after(self, delta: u64) -> CoalesceTimer {
        if self.0 >= delta {
            CoalesceTimer((self.0 - delta) as u64)
        } else {
            CoalesceTimer(0)
        }
    }

    /// Whether a tick of `delta` is the one that ends the countdown. A timer
    /// that has already ended does not end again.
    pub open spec fn ends_within(self, delta: u64) -> bool {
        0 < self.0 <= delta
    }

    /// A countdown of `nanos` nanoseconds.
    pub fn new(nanos: u64) -> (timer: CoalesceTimer)
        ensures
            timer == CoalesceTimer(nanos),
    {
        CoalesceTimer(nanos)
    }

    /// Advances the countdown by `delta` nanoseconds and says whether this
    /// tick ended it.
    pub fn tick(&mut self, delta: u64) -> (just_finished: bool)
        ensures
            *final(self) == old(self).after(delta),
            just_finished == old(self).ends_within(delta),
    {
        let before: u64 = self.0;
        if before >= delta {
            self.0 = before - delta;
        } else {
            self.0 = 0;
        }
        before > 0 && before <= delta
    }
}

impl Default for CoalesceTimer {
    /// The countdown a bit is spawned with.
    fn default() -> (timer: CoalesceTimer)
        ensures
            timer == CoalesceTimer(COALESCE_DELAY),
    {
        CoalesceTimer(COALESCE_DELAY)
    }
}

} // verus!
