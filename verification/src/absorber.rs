//! Absorbers and the capture of bits that touch them.
//!
//! An absorber is a fixed structure that keeps a tally of the mass it has
//! taken in. Every bit that touches an absorber is captured: its mass is
//! added to the tally and the bit is destroyed. When the tally reaches the
//! threshold, the threshold is taken off, the rest carries over, and, if the
//! absorber is an enemy absorber, an event is raised for it.
//!
//! A round of capture takes the pairs that the physics step reported, each
//! an absorber's handle and a bit's handle, and resolves them in the order
//! given. A pair counts only if both handles are known and the bit has not
//! been captured earlier in the round.

use vstd::prelude::*;
use crate::bit::dropped_handles;
use crate::bit::find;
use crate::bit::kept;
use crate::bit::sift;
use crate::bit::AbsorbeeOf;
use crate::bit::lemma_total_mass_push;
use crate::bit::position;
use crate::bit::total_mass;
use crate::bit::Bit;
use crate::error::BitError;
use crate::handle::first_index;
use crate::handle::lemma_first_index;
use crate::handle::lemma_first_index_is;
use crate::mass::BitMass;
use crate::mass::CoalesceEvent;
use crate::mass::MASS_THRESHOLD;

verus! {

/// An absorber: the mass it pulls with, and the tally of mass it has taken
/// in since it last reached the threshold.
#[derive(Clone, Copy, Debug, PartialEq, Eq, Structural)]
pub struct Absorber {
    pub mass: u64,
    pub bits_absorbed: u64,
}

impl Absorber {
    /// Whether the tally is below the threshold, as it is between captures.
    pub open spec fn in_range(self) -> bool {
        self.bits_absorbed < MASS_THRESHOLD
    }

    /// Whether taking in `mass` brings the tally to the threshold or over.
    pub open spec fn crosses(self, mass: BitMass) -> bool {
        self.bits_absorbed + mass.0 >= MASS_THRESHOLD
    }

    /// The tally after `mass` is taken in: the sum, less the threshold if
    /// the sum reaches it.
    pub open spec fn tally_after(self, mass: BitMass) -> int {
        if self.crosses(mass) {
            self.bits_absorbed + mass.0 - MASS_THRESHOLD
        } else {
            self.bits_absorbed + mass.0
        }
    }

    /// The absorber after `mass` is taken in.
    pub open spec fn capturing(self, mass: BitMass) -> Absorber {
        Absorber { mass: self.mass, bits_absorbed: self.tally_after(mass) as u64 }
    }

    /// An absorber that pulls with `mass` and has taken nothing in yet.
    pub fn new(mass: u64) -> (absorber: Absorber)
        ensures
            absorber == (Absorber { mass, bits_absorbed: 0 }),
    {
        Absorber { mass, bits_absorbed: 0 }
    }

    /// Takes `mass` into the tally and says whether the tally reached the
    /// threshold. If it did, the threshold has been taken off and what was
    /// over it is the new tally.
    pub fn capture(&mut self, mass: BitMass) -> (crossed: bool)
        requires
            old(self).bits_absorbed + mass.0 <= u64::MAX,
        ensures
            *final(self) == old(self).capturing(mass),
            final(self).bits_absorbed == old(self).tally_after(mass),
            crossed == old(self).crosses(mass),
    {
        let sum: u64 = self.bits_absorbed + mass.0;
        if sum >= MASS_THRESHOLD {
            self.bits_absorbed = sum - MASS_THRESHOLD;
            true
        } else {
            self.bits_absorbed = sum;
            false
        }
    }
}

/// An absorber as the engine lists it: its handle, its state, and whether it
/// is an enemy absorber, the only kind whose crossings raise an event.
#[derive(Clone, Copy, Debug, PartialEq, Eq, Structural)]
pub struct AbsorberEntry {
    pub entity: u64,
    pub absorber: Absorber,
    pub enemy: bool,
}

impl AbsorberEntry {
    /// The entry after its absorber takes in `mass`.
    pub open spec fn capturing(self, mass: BitMass) -> AbsorberEntry {
        AbsorberEntry {
            entity: self.entity,
            absorber: self.absorber.capturing(mass),
            enemy: self.enemy,
        }
    }
}

/// The handles of `absorbers`, place by place.
pub open spec fn absorber_handles(absorbers: Seq<AbsorberEntry>) -> Seq<u64> {
    Seq::new(absorbers.len(), |i: int| absorbers[i].entity)
}

/// The first place in `absorbers` that holds the handle `entity`, if any.
pub open spec fn absorber_position(absorbers: Seq<AbsorberEntry>, entity: u64) -> Option<int> {
    first_index(absorber_handles(absorbers), entity)
}

/// The sum of the tallies of `absorbers`.
pub open spec fn tally_total(absorbers: Seq<AbsorberEntry>) -> int
    decreases absorbers.len(),
{
    if absorbers.len() == 0 {
        0
    } else {
        tally_total(absorbers.drop_last()) + absorbers.last().absorber.bits_absorbed
    }
}

/// Whether every tally of `absorbers` is below the threshold.
pub open spec fn all_in_range(absorbers: Seq<AbsorberEntry>) -> bool {
    forall|i: int| 0 <= i < absorbers.len() ==> (#[trigger] absorbers[i]).absorber.in_range()
}

/// Whether every mass of `bits` is below the threshold.
pub open spec fn all_below_threshold(bits: Seq<Bit>) -> bool {
    forall|i: int| 0 <= i < bits.len() ==> !(#[trigger] bits[i]).mass.escalates()
}

/// Looks `entity` up in `absorbers`.
pub fn find_absorber(absorbers: &Vec<AbsorberEntry>, entity: u64) -> (found: Option<usize>)
    ensures
        match found {
            Some(i) => i < absorbers@.len() && absorber_position(absorbers@, entity) == Some(
                i as int,
            ),
            None => absorber_position(absorbers@, entity) is None,
        },
{
    let mut i: usize = 0;
    while i < absorbers.len()
        invariant
            i <= absorbers.len(),
            forall|j: int| 0 <= j < i ==> absorber_handles(absorbers@)[j] != entity,
        decreases absorbers.len() - i,
    {
        if absorbers[i].entity == entity {
            proof {
                lemma_first_index_is(absorber_handles(absorbers@), entity, i as int);
            }
            return Some(i);
        }
        i += 1;
    }
    proof {
        lemma_first_index(absorber_handles(absorbers@), entity);
    }
    None
}

/// What a round of capture has done so far: the absorbers with their
/// tallies as they now stand, for each place in the list of bits whether
/// that bit has been captured, the events raised, and how many times a
/// tally has reached the threshold, event or not.
pub struct AbsorbState {
    pub absorbers: Seq<AbsorberEntry>,
    pub captured: Seq<bool>,
    pub events: Seq<CoalesceEvent>,
    pub crossings: nat,
}

impl AbsorbState {
    /// The state before any pair is resolved.
    pub open spec fn fresh(absorbers: Seq<AbsorberEntry>, n: nat) -> AbsorbState {
        AbsorbState {
            absorbers,
            captured: Seq::new(n, |i: int| false),
            events: Seq::empty(),
            crossings: 0,
        }
    }

    /// The state after the absorber at place `a` captures the bit at place
    /// `b`.
    pub open spec fn capture(self, bits: Seq<Bit>, a: int, b: int) -> AbsorbState {
        let entry = self.absorbers[a];
        let crossed = entry.absorber.crosses(bits[b].mass);
        AbsorbState {
            absorbers: self.absorbers.update(a, entry.capturing(bits[b].mass)),
            captured: self.captured.update(b, true),
            events: if crossed && entry.enemy {
                self.events.push(CoalesceEvent(entry.entity))
            } else {
                self.events
            },
            crossings: if crossed {
                self.crossings + 1
            } else {
                self.crossings
            },
        }
    }
}

/// The state after one touching pair, an absorber's handle and a bit's, is
/// resolved.
pub open spec fn absorb_pair(bits: Seq<Bit>, state: AbsorbState, pair: (u64, u64)) -> AbsorbState {
    match (absorber_position(state.absorbers, pair.0), position(bits, pair.1)) {
        (Some(a), Some(b)) => if !state.captured[b] {
            state.capture(bits, a, b)
        } else {
            state
        },
        _ => state,
    }
}

/// The state after every pair of `contacts` is resolved, first to last.
pub open spec fn absorb_all(
    absorbers: Seq<AbsorberEntry>,
    bits: Seq<Bit>,
    contacts: Seq<(u64, u64)>,
) -> AbsorbState
    decreases contacts.len(),
{
    if contacts.len() == 0 {
        AbsorbState::fresh(absorbers, bits.len())
    } else {
        absorb_pair(bits, absorb_all(absorbers, bits, contacts.drop_last()), contacts.last())
    }
}

/// The mass of the bits among the first `n` that have not been captured.
pub open spec fn free_total(bits: Seq<Bit>, captured: Seq<bool>, n: nat) -> int
    decreases n,
{
    if n == 0 {
        0
    } else {
        free_total(bits, captured, (n - 1) as nat) + if captured[n - 1] {
            0
        } else {
            bits[n - 1].mass.0 as int
        }
    }
}

/// The bits that have not been captured, in order.
pub open spec fn remaining(bits: Seq<Bit>, captured: Seq<bool>) -> Seq<Bit> {
    kept(bits, captured, bits.len())
}

/// The handles of the bits that have been captured, in order.
pub open spec fn taken(bits: Seq<Bit>, captured: Seq<bool>) -> Seq<u64> {
    dropped_handles(bits, captured, bits.len())
}

/// What holds of the state at every point of a round that began with
/// `absorbers`: the lists keep their lengths and the absorbers their
/// handles and kinds, and the mass in the tallies, the mass of the bits
/// still free, and a threshold for every crossing add up to the mass that
/// tallies and bits held when the round began.
pub open spec fn balanced(absorbers: Seq<AbsorberEntry>, bits: Seq<Bit>, state: AbsorbState) -> bool {
    &&& state.absorbers.len() == absorbers.len()
    &&& state.captured.len() == bits.len()
    &&& forall|i: int|
        0 <= i < absorbers.len() ==> (#[trigger] state.absorbers[i]).entity == absorbers[i].entity
            && state.absorbers[i].enemy == absorbers[i].enemy && state.absorbers[i].absorber.mass
            == absorbers[i].absorber.mass
    &&& tally_total(state.absorbers) + free_total(bits, state.captured, bits.len())
        + MASS_THRESHOLD * state.crossings == tally_total(absorbers) + total_mass(bits)
}

/// Replacing one entry changes the sum of the tallies by the difference of
/// the two tallies.
proof fn lemma_tally_update(absorbers: Seq<AbsorberEntry>, a: int, entry: AbsorberEntry)
    requires
        0 <= a < absorbers.len(),
    ensures
        tally_total(absorbers.update(a, entry)) == tally_total(absorbers)
            - absorbers[a].absorber.bits_absorbed + entry.absorber.bits_absorbed,
    decreases absorbers.len(),
{
    let changed = absorbers.update(a, entry);
    if a == absorbers.len() - 1 {
        assert(changed.drop_last() =~= absorbers.drop_last());
    } else {
        lemma_tally_update(absorbers.drop_last(), a, entry);
        assert(changed.drop_last() =~= absorbers.drop_last().update(a, entry));
    }
}

/// No tally is more than the sum of the tallies.
proof fn lemma_tally_within_total(absorbers: Seq<AbsorberEntry>, a: int)
    requires
        0 <= a < absorbers.len(),
    ensures
        0 <= absorbers[a].absorber.bits_absorbed <= tally_total(absorbers),
        0 <= tally_total(absorbers),
    decreases absorbers.len(),
{
    lemma_tally_nonnegative(absorbers.drop_last());
    if a < absorbers.len() - 1 {
        lemma_tally_within_total(absorbers.drop_last(), a);
    }
}

/// The sum of the tallies is never negative.
pub proof fn lemma_tally_nonnegative(absorbers: Seq<AbsorberEntry>)
    ensures
        0 <= tally_total(absorbers),
    decreases absorbers.len(),
{
    if absorbers.len() > 0 {
        lemma_tally_nonnegative(absorbers.drop_last());
    }
}

/// Capturing a free bit takes its mass out of the free mass.
proof fn lemma_free_capture(bits: Seq<Bit>, captured: Seq<bool>, b: int, n: nat)
    requires
        captured.len() == bits.len(),
        n <= bits.len(),
        0 <= b < bits.len(),
        !captured[b],
    ensures
        free_total(bits, captured.update(b, true), n) == free_total(bits, captured, n) - (if b
            < n {
            bits[b].mass.0 as int
        } else {
            0
        }),
        0 <= free_total(bits, captured.update(b, true), n),
    decreases n,
{
    if n > 0 {
        lemma_free_capture(bits, captured, b, (n - 1) as nat);
    }
}

/// With nothing captured the free mass is the mass of the bits.
proof fn lemma_free_fresh(bits: Seq<Bit>, n: nat)
    requires
        n <= bits.len(),
    ensures
        free_total(bits, Seq::new(bits.len(), |i: int| false), n) == total_mass(
            bits.take(n as int),
        ),
    decreases n,
{
    if n > 0 {
        lemma_free_fresh(bits, (n - 1) as nat);
        assert(bits.take(n as int).drop_last() =~= bits.take(n - 1));
    }
}

/// The bits that remain weigh what the free mass says, and the free mass of
/// a part is never negative nor more than that of the whole.
pub proof fn lemma_remaining_total(bits: Seq<Bit>, captured: Seq<bool>, n: nat)
    requires
        captured.len() == bits.len(),
        n <= bits.len(),
    ensures
        total_mass(kept(bits, captured, n)) == free_total(bits, captured, n),
        0 <= free_total(bits, captured, n),
    decreases n,
{
    if n > 0 {
        lemma_remaining_total(bits, captured, (n - 1) as nat);
        if !captured[n - 1] {
            lemma_total_mass_push(kept(bits, captured, (n - 1) as nat), bits[n - 1]);
        }
    }
}

/// The state before any pair is resolved is balanced.
pub proof fn lemma_fresh_balanced(absorbers: Seq<AbsorberEntry>, bits: Seq<Bit>)
    ensures
        balanced(absorbers, bits, AbsorbState::fresh(absorbers, bits.len())),
{
    lemma_free_fresh(bits, bits.len());
    assert(bits.take(bits.len() as int) =~= bits);
}

/// Resolving a pair keeps the state balanced.
pub proof fn lemma_absorb_pair_balanced(
    absorbers: Seq<AbsorberEntry>,
    bits: Seq<Bit>,
    state: AbsorbState,
    pair: (u64, u64),
)
    requires
        balanced(absorbers, bits, state),
        tally_total(absorbers) + total_mass(bits) <= u64::MAX,
    ensures
        balanced(absorbers, bits, absorb_pair(bits, state, pair)),
{
    lemma_first_index(absorber_handles(state.absorbers), pair.0);
    lemma_first_index(crate::bit::handles(bits), pair.1);
    match (absorber_position(state.absorbers, pair.0), position(bits, pair.1)) {
        (Some(a), Some(b)) => {
            if !state.captured[b] {
                let entry = state.absorbers[a];
                lemma_tally_update(state.absorbers, a, entry.capturing(bits[b].mass));
                lemma_free_capture(bits, state.captured, b, bits.len());
                lemma_tally_within_total(state.absorbers, a);
            }
        },
        _ => {},
    }
}

/// A free bit weighs no more than the free mass.
proof fn lemma_free_bit_within(bits: Seq<Bit>, captured: Seq<bool>, b: int, n: nat)
    requires
        captured.len() == bits.len(),
        n <= bits.len(),
        0 <= b < n,
        !captured[b],
    ensures
        bits[b].mass.0 <= free_total(bits, captured, n),
    decreases n,
{
    lemma_remaining_total(bits, captured, (n - 1) as nat);
    if b < n - 1 {
        lemma_free_bit_within(bits, captured, b, (n - 1) as nat);
    }
}

/// The state is balanced after any number of pairs.
pub proof fn lemma_absorb_all_balanced(
    absorbers: Seq<AbsorberEntry>,
    bits: Seq<Bit>,
    contacts: Seq<(u64, u64)>,
)
    requires
        tally_total(absorbers) + total_mass(bits) <= u64::MAX,
    ensures
        balanced(absorbers, bits, absorb_all(absorbers, bits, contacts)),
    decreases contacts.len(),
{
    if contacts.len() == 0 {
        lemma_fresh_balanced(absorbers, bits);
    } else {
        lemma_absorb_all_balanced(absorbers, bits, contacts.drop_last());
        lemma_absorb_pair_balanced(
            absorbers,
            bits,
            absorb_all(absorbers, bits, contacts.drop_last()),
            contacts.last(),
        );
    }
}

/// A round of capture keeps the lists as long as they were, and no more
/// tallies cross than there are pairs, nor are more events raised than
/// tallies cross.
pub proof fn lemma_absorb_all_shape(
    absorbers: Seq<AbsorberEntry>,
    bits: Seq<Bit>,
    contacts: Seq<(u64, u64)>,
)
    ensures
        absorb_all(absorbers, bits, contacts).absorbers.len() == absorbers.len(),
        absorb_all(absorbers, bits, contacts).captured.len() == bits.len(),
        absorb_all(absorbers, bits, contacts).events.len() <= absorb_all(
            absorbers,
            bits,
            contacts,
        ).crossings <= contacts.len(),
    decreases contacts.len(),
{
    if contacts.len() > 0 {
        let before = absorb_all(absorbers, bits, contacts.drop_last());
        lemma_absorb_all_shape(absorbers, bits, contacts.drop_last());
        lemma_first_index(absorber_handles(before.absorbers), contacts.last().0);
        lemma_first_index(crate::bit::handles(bits), contacts.last().1);
    }
}

/// A round of capture that begins with every tally and every bit below the
/// threshold ends with every tally below the threshold.
pub proof fn lemma_absorb_all_in_range(
    absorbers: Seq<AbsorberEntry>,
    bits: Seq<Bit>,
    contacts: Seq<(u64, u64)>,
)
    requires
        all_in_range(absorbers),
        all_below_threshold(bits),
    ensures
        all_in_range(absorb_all(absorbers, bits, contacts).absorbers),
        absorb_all(absorbers, bits, contacts).absorbers.len() == absorbers.len(),
        absorb_all(absorbers, bits, contacts).captured.len() == bits.len(),
    decreases contacts.len(),
{
    if contacts.len() > 0 {
        let before = absorb_all(absorbers, bits, contacts.drop_last());
        let pair = contacts.last();
        lemma_absorb_all_in_range(absorbers, bits, contacts.drop_last());
        lemma_first_index(absorber_handles(before.absorbers), pair.0);
        lemma_first_index(crate::bit::handles(bits), pair.1);
    }
}

/// What a round of capture leaves behind: the bits that were not captured,
/// unchanged and in order; the handles of the bits that were captured and
/// are to be destroyed; and the events raised by enemy absorbers.
pub struct Absorbed {
    pub bits: Vec<Bit>,
    pub despawned: Vec<u64>,
    pub events: Vec<CoalesceEvent>,
}

/// Resolves every pair of `contacts` in turn, each an absorber's handle and
/// a bit's handle: the tallies of `absorbers` take in the mass of the bits
/// captured, and the result lists what is left of `bits`.
pub fn absorb(
    absorbers: &mut Vec<AbsorberEntry>,
    bits: &Vec<Bit>,
    contacts: &Vec<(u64, u64)>,
) -> (absorbed: Absorbed)
    requires
        tally_total(old(absorbers)@) + total_mass(bits@) <= u64::MAX,
    ensures
        final(absorbers)@ == absorb_all(old(absorbers)@, bits@, contacts@).absorbers,
        absorbed.bits@ == remaining(
            bits@,
            absorb_all(old(absorbers)@, bits@, contacts@).captured,
        ),
        absorbed.despawned@ == taken(
            bits@,
            absorb_all(old(absorbers)@, bits@, contacts@).captured,
        ),
        absorbed.events@ == absorb_all(old(absorbers)@, bits@, contacts@).events,
{
    let ghost initial = absorbers@;
    let mut captured: Vec<bool> = Vec::new();
    let mut n: usize = 0;
    while n < bits.len()
        invariant
            n <= bits.len(),
            captured@.len() == n,
            forall|i: int| 0 <= i < n ==> !captured@[i],
        decreases bits.len() - n,
    {
        captured.push(false);
        n += 1;
    }
    let mut events: Vec<CoalesceEvent> = Vec::new();
    let ghost mut state = AbsorbState::fresh(initial, bits@.len());
    let mut k: usize = 0;
    while k < contacts.len()
        invariant
            k <= contacts.len(),
            tally_total(initial) + total_mass(bits@) <= u64::MAX,
            state == absorb_all(initial, bits@, contacts@.take(k as int)),
            absorbers@ == state.absorbers,
            captured@ == state.captured,
            events@ == state.events,
        decreases contacts.len() - k,
    {
        let pair = contacts[k];
        proof {
            assert(contacts@.take(k + 1).drop_last() =~= contacts@.take(k as int));
            lemma_absorb_all_balanced(initial, bits@, contacts@.take(k as int));
        }
        let found_absorber = find_absorber(absorbers, pair.0);
        let found_bit = find(bits, pair.1);
        match (found_absorber, found_bit) {
            (Some(a), Some(b)) => {
                if !captured[b] {
                    proof {
                        lemma_tally_within_total(state.absorbers, a as int);
                        lemma_free_bit_within(bits@, state.captured, b as int, bits@.len());
                    }
                    let mut entry = absorbers[a];
                    let crossed = entry.absorber.capture(bits[b].mass);
                    absorbers[a] = entry;
                    captured[b] = true;
                    if crossed && entry.enemy {
                        events.push(CoalesceEvent(entry.entity));
                    }
                }
            },
            _ => {},
        }
        proof {
            state = absorb_pair(bits@, state, pair);
        }
        k += 1;
    }
    proof {
        assert(contacts@.take(k as int) =~= contacts@);
        lemma_absorb_all_balanced(initial, bits@, contacts@);
    }
    let (kept, despawned) = sift(bits, &captured);
    Absorbed { bits: kept, despawned, events }
}

/// The absorber that `link` leads to, if it is still among `absorbers`.
pub open spec fn linked(absorbers: Seq<AbsorberEntry>, link: AbsorbeeOf) -> Result<
    AbsorberEntry,
    BitError,
> {
    match absorber_position(absorbers, link.0) {
        Some(a) => Ok(absorbers[a]),
        None => Err(BitError::DanglingLink),
    }
}

/// Follows a bit's link to its absorber. The absorber may have been removed
/// since the bit was spawned; the link then dangles.
pub fn follow_link(absorbers: &Vec<AbsorberEntry>, link: AbsorbeeOf) -> (found: Result<
    AbsorberEntry,
    BitError,
>)
    ensures
        found == linked(absorbers@, link),
{
    match find_absorber(absorbers, link.0) {
        Some(a) => Ok(absorbers[a]),
        None => Err(BitError::DanglingLink),
    }
}

} // verus!
