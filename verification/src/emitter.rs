//! Binding a freshly spawned bit to an absorber.
//!
//! Every bit is bound, once and for good, to one of the absorbers that are
//! alive when it is spawned. The absorber is chosen by drawing a place in the
//! list of absorbers uniformly at random, so that over time each absorber is
//! assigned an equal share of the bits. With no absorber alive there is
//! nothing to draw from, and the spawn fails.

use rand::rngs::StdRng;
use rand::Rng;
use vstd::prelude::*;
use crate::absorber::AbsorberEntry;
use crate::bit::AbsorbeeOf;
use crate::bit::Bit;
use crate::error::BitError;

verus! {

/// The seedable generator `rand::rngs::StdRng`, carried through as an opaque
/// value.
#[verifier::external_type_specification]
#[verifier::external_body]
pub struct ExStdRng(rand::rngs::StdRng);

/// Calls `rand::Rng::random_range` on the range `0..total`. Trusted: for a
/// range that is not empty the call returns a value inside the range. Which
/// value depends on the state of the generator, of which nothing is said.
/// The call panics on an empty range, which `requires` rules out.
#[verifier::external_body]
fn random_index(rng: &mut StdRng, total: usize) -> (selection: usize)
    requires
        total > 0,
    ensures
        selection < total,
{
    rng.random_range(0..total)
}

/// The link that the draw `selection` gives: to the absorber at that place
/// in the list, if there is one.
pub open spec fn assigned(absorbers: Seq<AbsorberEntry>, selection: usize) -> Result<
    AbsorbeeOf,
    BitError,
> {
    if selection < absorbers.len() {
        Ok(AbsorbeeOf(absorbers[selection as int].entity))
    } else {
        Err(BitError::MissingAbsorber)
    }
}

/// Whether every draw in `selections` names a place in a list of `total`
/// absorbers.
pub open spec fn all_assignable(selections: Seq<usize>, total: nat) -> bool {
    forall|k: int| 0 <= k < selections.len() ==> selections[k] < total
}

/// The bits that a spawn creates for the draws `selections`, one for each
/// draw, with handles counting up from `first`.
pub open spec fn spawned_bits(
    absorbers: Seq<AbsorberEntry>,
    first: u64,
    selections: Seq<usize>,
) -> Seq<Bit> {
    Seq::new(
        selections.len(),
        |k: int|
            Bit::spawned((first + k) as u64, AbsorbeeOf(absorbers[selections[k] as int].entity)),
    )
}

/// Binds a bit to the absorber at the place that was drawn.
pub fn assign_absorber(absorbers: &Vec<AbsorberEntry>, selection: usize) -> (link: Result<
    AbsorbeeOf,
    BitError,
>)
    ensures
        link == assigned(absorbers@, selection),
{
    if selection < absorbers.len() {
        Ok(AbsorbeeOf(absorbers[selection].entity))
    } else {
        Err(BitError::MissingAbsorber)
    }
}

/// Draws one place in a list of `total` absorbers for each of `count` bits.
/// With no absorber there is nothing to draw.
pub fn draw_selections(total: usize, count: usize, rng: &mut StdRng) -> (drawn: Result<
    Vec<usize>,
    BitError,
>)
    ensures
        total == 0 ==> drawn == Err::<Vec<usize>, BitError>(BitError::MissingAbsorber),
        total > 0 ==> drawn is Ok && drawn->Ok_0@.len() == count && all_assignable(
            drawn->Ok_0@,
            total as nat,
        ),
{
    if total == 0 {
        return Err(BitError::MissingAbsorber);
    }
    let mut selections: Vec<usize> = Vec::new();
    let mut k: usize = 0;
    while k < count
        invariant
            k <= count,
            total > 0,
            selections@.len() == k,
            all_assignable(selections@, total as nat),
        decreases count - k,
    {
        let selection = random_index(rng, total);
        selections.push(selection);
        k += 1;
    }
    Ok(selections)
}

} // verus!
