//! What can go wrong.

use vstd::prelude::*;

verus! {

/// The failures the engine reports.
#[derive(Clone, Copy, Debug, PartialEq, Eq, Structural)]
pub enum BitError {
    /// Bits were to be spawned and no absorber could be assigned to them.
    /// Nothing is spawned.
    MissingAbsorber,
    /// A bit's link names an absorber that is gone. Nothing pulls on such a
    /// bit any more; it is left to merge with other bits.
    DanglingLink,
}

impl BitError {
    /// The failure in words.
    pub fn message(&self) -> (text: &'static str)
        ensures
            text@ == match *self {
                BitError::MissingAbsorber => "no absorber to assign"@,
                BitError::DanglingLink => "the assigned absorber is gone"@,
            },
    {
        match self {
            BitError::MissingAbsorber => "no absorber to assign",
            BitError::DanglingLink => "the assigned absorber is gone",
        }
    }
}

} // verus!
