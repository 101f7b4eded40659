//! The idealized mass of a bit and the event raised when it grows too large.

use vstd::prelude::*;

verus! {

/// The mass at which a bit or an absorber tally escalates.
pub const MASS_THRESHOLD: u64 = 30;

/// The mass every bit is spawned with.
pub const SPAWN_MASS: u64 = 1;

/// Raised for the entity whose mass reached [`MASS_THRESHOLD`].
#[derive(Clone, Copy, Debug, PartialEq, Eq, Structural)]
pub struct CoalesceEvent(pub u64);

/// The idealized mass of a bit: how many spawned bits have coalesced into it.
///
/// A mass is never changed in place. A bit that gains mass gets a new
/// `BitMass`, and [`BitMass::insert`] is run on the new value so that whatever
/// is derived from it stays in step.
#[derive(Clone, Copy, Debug, PartialEq, Eq, Structural)]
pub struct BitMass(pub u64);

impl BitMass {
    /// Whether this mass is at or above the threshold.
    pub open spec fn escalates(self) -> bool {
        self.0 >= MASS_THRESHOLD
    }

    /// Whether replacing `self` by `next` carries the mass over the
    /// threshold from below.
    pub open spec fn crosses(self, next: BitMass) -> bool {
        self.0 < MASS_THRESHOLD && next.0 >= MASS_THRESHOLD
    }

    /// Runs when `self` becomes the mass of `entity`: the event for `entity`
    /// if the mass is at or above the threshold, nothing otherwise.
    pub fn insert(self, entity: u64) -> (event: Option<CoalesceEvent>)
        ensures
            event == if self.escalates() {
                Some(CoalesceEvent(entity))
            } else {
                None
            },
    {
        if self.0 >= MASS_THRESHOLD {
            Some(CoalesceEvent(entity))
        } else {
            None
        }
    }
}

} // verus!
