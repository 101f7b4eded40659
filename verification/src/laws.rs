//! What holds of the engine as a whole.
//!
//! Each law is stated over the same functions that the contracts of the
//! phases use, and each is proved.

use vstd::prelude::*;
use crate::absorber::absorb_all;
use crate::absorber::all_below_threshold;
use crate::absorber::lemma_absorb_all_balanced;
use crate::absorber::lemma_absorb_all_shape;
use crate::absorber::lemma_remaining_total;
use crate::absorber::remaining;
use crate::absorber::tally_total;
use crate::absorber::AbsorbState;
use crate::absorber::Absorber;
use crate::absorber::AbsorberEntry;
use crate::activation::lemma_ticked_all;
use crate::activation::ticked_all;
use crate::bit::dropped_mass;
use crate::bit::increasing;
use crate::bit::is_kept_from;
use crate::bit::lemma_kept_all;
use crate::bit::lemma_kept_and_dropped;
use crate::bit::lemma_kept_origin;
use crate::bit::position;
use crate::bit::total_mass;
use crate::bit::Bit;
use crate::coalesce::can_merge;
use crate::coalesce::escalated_marks;
use crate::coalesce::escalates_at;
use crate::coalesce::escalations;
use crate::coalesce::has_origin;
use crate::coalesce::is_raised_from;
use crate::coalesce::is_survivor_of;
use crate::coalesce::lemma_escalations;
use crate::coalesce::lemma_escalations_increasing;
use crate::coalesce::lemma_round;
use crate::coalesce::losers;
use crate::coalesce::resolve_all;
use crate::coalesce::resolve_pair;
use crate::coalesce::survivors;
use crate::coalesce::MergeState;
use crate::emitter::spawned_bits;
use crate::mass::BitMass;
use crate::mass::CoalesceEvent;
use crate::mass::MASS_THRESHOLD;
use crate::mass::SPAWN_MASS;
use crate::world::bits_after_merges;
use crate::world::bits_after_tick;
use crate::world::capture_of_tick;
use crate::world::events_of_merges;
use crate::world::merged_in_tick;

verus! {

/// Whether `after` is the bit `before` at a later time: the same handle and
/// the same link, a mass that is no smaller, and active if it was active
/// before.
pub open spec fn grew_from(before: Bit, after: Bit) -> bool {
    &&& after.entity == before.entity
    &&& after.absorber == before.absorber
    &&& before.mass.0 <= after.mass.0
    &&& before.is_active() ==> after.is_active()
}

/// Whether `after` is one of the bits of `before` at a later time.
pub open spec fn descends(before: Seq<Bit>, after: Bit) -> bool {
    exists|i: int| 0 <= i < before.len() && #[trigger] grew_from(before[i], after)
}

/// Whether the three lists are what a round of merging over `bits` and
/// `contacts` returns.
pub open spec fn is_round_outcome(
    bits: Seq<Bit>,
    contacts: Seq<(u64, u64)>,
    merged: Seq<Bit>,
    despawned: Seq<u64>,
    events: Seq<CoalesceEvent>,
) -> bool {
    &&& merged == survivors(bits, resolve_all(bits, contacts))
    &&& despawned == losers(bits, resolve_all(bits, contacts))
    &&& events == escalations(bits, resolve_all(bits, contacts), bits.len())
}

/// Merging moves mass from bit to bit and neither makes nor loses any:
/// whatever the pairs, and in whatever order they are resolved, the
/// survivors weigh together what the bits weighed before.
pub proof fn merging_conserves_mass(bits: Seq<Bit>, contacts: Seq<(u64, u64)>)
    requires
        total_mass(bits) <= u64::MAX,
    ensures
        total_mass(survivors(bits, resolve_all(bits, contacts))) == total_mass(bits),
{
    lemma_round(bits, contacts);
}

/// In a tick in which no bit escalates, no bit leaves the arena but by
/// losing a merge or by capture, and the bits weigh afterwards what they
/// weighed before, less the mass of the bits that the absorbers captured.
pub proof fn tick_conserves_mass(
    bits: Seq<Bit>,
    absorbers: Seq<AbsorberEntry>,
    delta: u64,
    touching: Seq<(u64, u64)>,
    absorbing: Seq<(u64, u64)>,
)
    requires
        all_below_threshold(bits),
        total_mass(bits) <= u64::MAX,
        events_of_merges(bits, delta, touching).len() == 0,
    ensures
        bits_after_merges(bits, delta, touching) == merged_in_tick(bits, delta, touching),
        total_mass(bits_after_merges(bits, delta, touching)) == total_mass(bits),
        total_mass(bits_after_tick(bits, absorbers, delta, touching, absorbing)) == total_mass(bits)
            - dropped_mass(
            bits_after_merges(bits, delta, touching),
            capture_of_tick(bits, absorbers, delta, touching, absorbing).captured,
            bits_after_merges(bits, delta, touching).len(),
        ),
{
    let woken = ticked_all(bits, delta);
    let state = resolve_all(woken, touching);
    let merged = survivors(woken, state);
    let marks = escalated_marks(merged);
    lemma_ticked_all(bits, delta);
    lemma_round(woken, touching);
    lemma_escalations(woken, state, woken.len());
    assert forall|j: int| 0 <= j < merged.len() implies !marks[j] by {
        assert(has_origin(woken, state, merged[j]));
        let i = choose|i: int|
            0 <= i < woken.len() && #[trigger] is_survivor_of(woken, state, i, merged[j]);
        assert(!bits[i].mass.escalates());
        if merged[j].mass.escalates() {
            assert(escalates_at(woken, state, i));
            assert(escalations(woken, state, woken.len()).contains(
                CoalesceEvent(woken[i].entity),
            ));
        }
    }
    lemma_kept_all(merged, marks, merged.len());
    let left = bits_after_merges(bits, delta, touching);
    let caught = capture_of_tick(bits, absorbers, delta, touching, absorbing);
    lemma_absorb_all_shape(absorbers, left, absorbing);
    lemma_kept_and_dropped(left, caught.captured, left.len());
}

/// Spawning adds the spawn mass once for every bit spawned.
pub proof fn spawning_adds_mass(
    bits: Seq<Bit>,
    absorbers: Seq<AbsorberEntry>,
    first: u64,
    selections: Seq<usize>,
)
    ensures
        total_mass(bits + spawned_bits(absorbers, first, selections)) == total_mass(bits)
            + selections.len() * SPAWN_MASS,
    decreases selections.len(),
{
    let fresh = spawned_bits(absorbers, first, selections);
    if selections.len() > 0 {
        let front = selections.drop_last();
        spawning_adds_mass(bits, absorbers, first, front);
        assert((bits + fresh).drop_last() =~= bits + spawned_bits(absorbers, first, front));
    }
}

/// Capture moves mass from the bits into the tallies. The tallies, the bits
/// that are left, and one threshold for every time a tally crossed it add
/// up to what tallies and bits held before.
pub proof fn capture_accounts_for_mass(
    absorbers: Seq<AbsorberEntry>,
    bits: Seq<Bit>,
    contacts: Seq<(u64, u64)>,
)
    requires
        tally_total(absorbers) + total_mass(bits) <= u64::MAX,
    ensures
        tally_total(absorb_all(absorbers, bits, contacts).absorbers) + total_mass(
            remaining(bits, absorb_all(absorbers, bits, contacts).captured),
        ) + MASS_THRESHOLD * absorb_all(absorbers, bits, contacts).crossings == tally_total(
            absorbers,
        ) + total_mass(bits),
{
    lemma_absorb_all_balanced(absorbers, bits, contacts);
    lemma_remaining_total(bits, absorb_all(absorbers, bits, contacts).captured, bits.len());
}

/// A bit never loses mass while it lives, is never bound to another
/// absorber, and never goes back from active to pending: every bit that is
/// in the arena after a tick was in it before, under the same handle and
/// with the same link, weighed no more then than it does now, and if it was
/// active then it is active now.
pub proof fn mass_never_shrinks(
    bits: Seq<Bit>,
    absorbers: Seq<AbsorberEntry>,
    delta: u64,
    touching: Seq<(u64, u64)>,
    absorbing: Seq<(u64, u64)>,
)
    requires
        total_mass(bits) <= u64::MAX,
    ensures
        forall|j: int|
            0 <= j < bits_after_tick(bits, absorbers, delta, touching, absorbing).len()
                ==> descends(
                bits,
                #[trigger] bits_after_tick(bits, absorbers, delta, touching, absorbing)[j],
            ),
{
    let woken = ticked_all(bits, delta);
    let state = resolve_all(woken, touching);
    let merged = survivors(woken, state);
    let marks = escalated_marks(merged);
    let left = bits_after_merges(bits, delta, touching);
    let caught = capture_of_tick(bits, absorbers, delta, touching, absorbing);
    let last = bits_after_tick(bits, absorbers, delta, touching, absorbing);
    lemma_ticked_all(bits, delta);
    lemma_round(woken, touching);
    lemma_kept_origin(merged, marks, merged.len());
    lemma_absorb_all_shape(absorbers, left, absorbing);
    lemma_kept_origin(left, caught.captured, left.len());
    assert forall|j: int| 0 <= j < last.len() implies descends(bits, #[trigger] last[j]) by {
        assert(is_kept_from(left, caught.captured, left.len(), j, last[j]));
        let a = choose|a: int|
            j <= a < left.len() && !caught.captured[a] && #[trigger] left[a] == last[j];
        assert(is_kept_from(merged, marks, merged.len(), a, left[a]));
        let b = choose|b: int| a <= b < merged.len() && !marks[b] && #[trigger] merged[b] == left[a];
        assert(has_origin(woken, state, merged[b]));
        let c = choose|c: int|
            0 <= c < woken.len() && #[trigger] is_survivor_of(woken, state, c, merged[b]);
        assert(grew_from(bits[c], last[j]));
    }
}

/// In the merge phase an event is raised for a handle if and only if a bit
/// with that handle comes out of the round with a mass that crosses the
/// threshold from below.
pub proof fn escalation_iff_crossing(bits: Seq<Bit>, contacts: Seq<(u64, u64)>, entity: u64)
    ensures
        escalations(bits, resolve_all(bits, contacts), bits.len()).contains(CoalesceEvent(entity))
            <==> exists|i: int|
            0 <= i < bits.len() && escalates_at(bits, resolve_all(bits, contacts), i)
                && #[trigger] bits[i].entity == entity,
{
    let state = resolve_all(bits, contacts);
    let events = escalations(bits, state, bits.len());
    lemma_escalations(bits, state, bits.len());
    if events.contains(CoalesceEvent(entity)) {
        let k = choose|k: int| 0 <= k < events.len() && events[k] == CoalesceEvent(entity);
        assert(is_raised_from(bits, state, bits.len(), k, events[k]));
    }
}

/// No bit raises two events in one round: where no two bits share a handle,
/// no two events of a round name the same handle.
pub proof fn one_event_per_bit(bits: Seq<Bit>, contacts: Seq<(u64, u64)>)
    requires
        increasing(bits),
    ensures
        forall|a: int, b: int|
            0 <= a < b < escalations(bits, resolve_all(bits, contacts), bits.len()).len()
                ==> escalations(bits, resolve_all(bits, contacts), bits.len())[a] != escalations(
                bits,
                resolve_all(bits, contacts),
                bits.len(),
            )[b],
{
    lemma_escalations_increasing(bits, resolve_all(bits, contacts), bits.len());
}

/// A bit that has raised its event cannot raise another: once the merge
/// phase is over, no bit at or above the threshold is left in the arena.
pub proof fn escalated_bits_are_gone(bits: Seq<Bit>, delta: u64, touching: Seq<(u64, u64)>)
    ensures
        all_below_threshold(bits_after_merges(bits, delta, touching)),
{
    let woken = ticked_all(bits, delta);
    let merged = survivors(woken, resolve_all(woken, touching));
    let marks = escalated_marks(merged);
    let left = bits_after_merges(bits, delta, touching);
    lemma_kept_origin(merged, marks, merged.len());
    assert forall|j: int| 0 <= j < left.len() implies !(#[trigger] left[j]).mass.escalates() by {
        assert(is_kept_from(merged, marks, merged.len(), j, left[j]));
    }
}

/// An absorber raises no more than one event each time its tally crosses
/// the threshold, and a tally crosses at most once for each pair resolved.
pub proof fn one_event_per_crossing(
    absorbers: Seq<AbsorberEntry>,
    bits: Seq<Bit>,
    contacts: Seq<(u64, u64)>,
)
    ensures
        absorb_all(absorbers, bits, contacts).events.len() <= absorb_all(
            absorbers,
            bits,
            contacts,
        ).crossings <= contacts.len(),
{
    lemma_absorb_all_shape(absorbers, bits, contacts);
}

/// One capture raises at most one event: one, for the absorber, if the
/// absorber is an enemy absorber and the capture takes its tally to the
/// threshold or over it, and none otherwise. A crossing is counted exactly
/// when the tally gets there, and the tally that is left is below the
/// threshold again whenever the tally and the bit were below it.
pub proof fn one_capture_one_event(bits: Seq<Bit>, state: AbsorbState, a: int, b: int)
    requires
        0 <= a < state.absorbers.len(),
        0 <= b < bits.len(),
        state.captured.len() == bits.len(),
    ensures
        state.capture(bits, a, b).events == if state.absorbers[a].enemy
            && state.absorbers[a].absorber.crosses(bits[b].mass) {
            state.events.push(CoalesceEvent(state.absorbers[a].entity))
        } else {
            state.events
        },
        state.capture(bits, a, b).crossings == state.crossings + if state.absorbers[a].absorber.crosses(
            bits[b].mass,
        ) {
            1nat
        } else {
            0nat
        },
        state.absorbers[a].absorber.in_range() && !bits[b].mass.escalates() ==> state.capture(
            bits,
            a,
            b,
        ).absorbers[a].absorber.in_range(),
{
}

/// The outcome of a round depends on nothing but the bits, in the order in
/// which they were created, and the pairs, in the order in which they were
/// reported: two rounds over the same bits and pairs come to the same
/// survivors, the same losers and the same events.
pub proof fn rounds_are_deterministic(
    bits: Seq<Bit>,
    contacts: Seq<(u64, u64)>,
    merged: (Seq<Bit>, Seq<Bit>),
    despawned: (Seq<u64>, Seq<u64>),
    events: (Seq<CoalesceEvent>, Seq<CoalesceEvent>),
)
    requires
        is_round_outcome(bits, contacts, merged.0, despawned.0, events.0),
        is_round_outcome(bits, contacts, merged.1, despawned.1, events.1),
    ensures
        merged.0 == merged.1,
        despawned.0 == despawned.1,
        events.0 == events.1,
{
}

/// Of two bits of equal mass that merge, the one named first in the pair
/// wins: the other is marked, and the first is credited with all it held.
pub proof fn ties_go_to_the_first(bits: Seq<Bit>, state: MergeState, pair: (u64, u64))
    requires
        position(bits, pair.0) is Some,
        position(bits, pair.1) is Some,
        position(bits, pair.0) != position(bits, pair.1),
        can_merge(bits, state, position(bits, pair.0)->Some_0),
        can_merge(bits, state, position(bits, pair.1)->Some_0),
        state.shaped(bits.len()),
        bits[position(bits, pair.0)->Some_0].mass == bits[position(bits, pair.1)->Some_0].mass,
    ensures
        resolve_pair(bits, state, pair).has_coalesced[position(bits, pair.1)->Some_0],
        !resolve_pair(bits, state, pair).has_coalesced[position(bits, pair.0)->Some_0],
        resolve_pair(bits, state, pair).temp_mass[position(bits, pair.0)->Some_0]
            == state.temp_mass[position(bits, pair.0)->Some_0] + bits[position(
            bits,
            pair.1,
        )->Some_0].mass.0 + state.temp_mass[position(bits, pair.1)->Some_0],
{
}

/// A capture that takes a tally from one below the threshold to `k` above
/// it crosses the threshold once and leaves `k` as the new tally.
pub proof fn tally_carries_over(absorber: Absorber, k: nat)
    requires
        absorber.bits_absorbed == MASS_THRESHOLD - 1,
        k + 1 <= u64::MAX,
    ensures
        absorber.crosses(BitMass((k + 1) as u64)),
        absorber.tally_after(BitMass((k + 1) as u64)) == k,
        absorber.capturing(BitMass((k + 1) as u64)).bits_absorbed == k,
{
}

/// When a capture takes the tally of an enemy absorber from one below the
/// threshold to `k` above it, exactly one event is raised, for that
/// absorber; for any other absorber none is. Either way one crossing is
/// counted and `k` is the new tally.
pub proof fn crossing_raises_one_event(bits: Seq<Bit>, state: AbsorbState, a: int, b: int, k: nat)
    requires
        0 <= a < state.absorbers.len(),
        0 <= b < bits.len(),
        state.captured.len() == bits.len(),
        state.absorbers[a].absorber.bits_absorbed == MASS_THRESHOLD - 1,
        bits[b].mass.0 == k + 1,
    ensures
        state.capture(bits, a, b).crossings == state.crossings + 1,
        state.capture(bits, a, b).absorbers[a].absorber.bits_absorbed == k,
        state.capture(bits, a, b).captured[b],
        state.capture(bits, a, b).events == if state.absorbers[a].enemy {
            state.events.push(CoalesceEvent(state.absorbers[a].entity))
        } else {
            state.events
        },
{
}

} // verus!
