//! The arena that holds the bits and the absorbers between ticks.
//!
//! The arena hands out the handles, keeps the bits and the absorbers in the
//! order in which they were created, and runs the phases of a tick in their
//! fixed order: timers, merges, captures. Between calls it is well formed:
//! handles are never reused, every bit weighs at least the spawn mass and
//! less than the threshold, every tally is below the threshold, and a
//! pending bit has time left on its timer.

use rand::rngs::StdRng;
use vstd::prelude::*;
use crate::absorber::absorb;
use crate::absorber::absorb_all;
use crate::absorber::absorber_position;
use crate::absorber::all_below_threshold;
use crate::absorber::all_in_range;
use crate::absorber::find_absorber;
use crate::absorber::lemma_absorb_all_balanced;
use crate::absorber::lemma_absorb_all_in_range;
use crate::absorber::lemma_remaining_total;
use crate::absorber::lemma_tally_nonnegative;
use crate::absorber::remaining;
use crate::absorber::taken;
use crate::absorber::tally_total;
use crate::absorber::AbsorbState;
use crate::absorber::Absorbed;
use crate::absorber::Absorber;
use crate::absorber::AbsorberEntry;
use crate::activation::activations;
use crate::activation::lemma_ticked_all;
use crate::activation::ticked_all;
use crate::bit::increasing;
use crate::bit::is_kept_from;
use crate::bit::lemma_kept_increasing;
use crate::bit::lemma_kept_origin;
use crate::bit::lemma_kept_total;
use crate::bit::lemma_total_mass_push;
use crate::bit::total_mass;
use crate::bit::AbsorbeeOf;
use crate::bit::Bit;
use crate::coalesce::apply_mass;
use crate::coalesce::coalesce;
use crate::coalesce::escalated_marks;
use crate::coalesce::escalations;
use crate::coalesce::has_origin;
use crate::coalesce::is_survivor_of;
use crate::coalesce::lemma_round;
use crate::coalesce::losers;
use crate::coalesce::resolve_all;
use crate::coalesce::retire;
use crate::coalesce::retired;
use crate::coalesce::survivors;
use crate::coalesce::Merged;
use crate::emitter::all_assignable;
use crate::emitter::assign_absorber;
use crate::emitter::draw_selections;
use crate::emitter::spawned_bits;
use crate::error::BitError;
use crate::mass::CoalesceEvent;
use crate::mass::MASS_THRESHOLD;
use crate::mass::SPAWN_MASS;
use crate::timer::CoalesceTimer;

verus! {

/// The bits and the absorbers of a running game, and the next free handle.
pub struct BitWorld {
    bits: Vec<Bit>,
    absorbers: Vec<AbsorberEntry>,
    next_entity: u64,
}

/// Whether the handles of `absorbers` grow from each place to the next.
pub open spec fn absorbers_increasing(absorbers: Seq<AbsorberEntry>) -> bool {
    forall|i: int, j: int|
        0 <= i < j < absorbers.len() ==> absorbers[i].entity < absorbers[j].entity
}

/// Whether every bit of `bits` is as a live bit has to be: a handle below
/// `issued`, a mass of at least the spawn mass, and, if it is pending, time
/// left on its timer.
pub open spec fn bits_alive(bits: Seq<Bit>, issued: nat) -> bool {
    forall|i: int|
        0 <= i < bits.len() ==> {
            &&& (#[trigger] bits[i]).entity < issued
            &&& bits[i].mass.0 >= SPAWN_MASS
            &&& match bits[i].timer {
                Some(timer) => !timer.finished(),
                None => true,
            }
        }
}

/// What the phases of one tick return together.
pub struct Tick {
    /// The bits that became active: their colliders are to be switched on.
    pub activated: Vec<u64>,
    /// The bits as they stood after merging, each survivor with its new
    /// mass, those that escalated included.
    pub merged: Vec<Bit>,
    /// The bits that were merged away or captured and are to be destroyed.
    pub despawned: Vec<u64>,
    /// The events raised, those of the merges before those of the captures.
    pub events: Vec<CoalesceEvent>,
}

/// Whether bits can be spawned for the draws `selections`: there is an
/// absorber, and every draw names one.
pub open spec fn can_spawn(absorbers: Seq<AbsorberEntry>, selections: Seq<usize>) -> bool {
    absorbers.len() > 0 && all_assignable(selections, absorbers.len())
}

/// The `n` handles that count up from `first`.
pub open spec fn handles_from(first: u64, n: nat) -> Seq<u64> {
    Seq::new(n, |k: int| (first + k) as u64)
}

/// What the capture phase returns: the bits that were captured and are to
/// be destroyed, and the events raised by enemy absorbers.
pub struct Captured {
    pub despawned: Vec<u64>,
    pub events: Vec<CoalesceEvent>,
}

/// The bits as they stand after the merges of a tick, each survivor with
/// its new mass, those that escalated included.
pub open spec fn merged_in_tick(bits: Seq<Bit>, delta: u64, touching: Seq<(u64, u64)>) -> Seq<Bit> {
    survivors(ticked_all(bits, delta), resolve_all(ticked_all(bits, delta), touching))
}

/// The handles of the bits that are merged away in a tick.
pub open spec fn losers_in_tick(bits: Seq<Bit>, delta: u64, touching: Seq<(u64, u64)>) -> Seq<u64> {
    losers(ticked_all(bits, delta), resolve_all(ticked_all(bits, delta), touching))
}

/// The events that the merge phase of a tick raises.
pub open spec fn events_of_merges(
    bits: Seq<Bit>,
    delta: u64,
    touching: Seq<(u64, u64)>,
) -> Seq<CoalesceEvent> {
    escalations(
        ticked_all(bits, delta),
        resolve_all(ticked_all(bits, delta), touching),
        bits.len(),
    )
}

/// The bits as the merge phase of a tick leaves them in the arena: the
/// survivors that did not escalate.
pub open spec fn bits_after_merges(bits: Seq<Bit>, delta: u64, touching: Seq<(u64, u64)>) -> Seq<
    Bit,
> {
    retired(merged_in_tick(bits, delta, touching))
}

/// What the capture phase of a tick comes to.
pub open spec fn capture_of_tick(
    bits: Seq<Bit>,
    absorbers: Seq<AbsorberEntry>,
    delta: u64,
    touching: Seq<(u64, u64)>,
    absorbing: Seq<(u64, u64)>,
) -> AbsorbState {
    absorb_all(absorbers, bits_after_merges(bits, delta, touching), absorbing)
}

/// The bits as a whole tick leaves them in the arena.
pub open spec fn bits_after_tick(
    bits: Seq<Bit>,
    absorbers: Seq<AbsorberEntry>,
    delta: u64,
    touching: Seq<(u64, u64)>,
    absorbing: Seq<(u64, u64)>,
) -> Seq<Bit> {
    remaining(
        bits_after_merges(bits, delta, touching),
        capture_of_tick(bits, absorbers, delta, touching, absorbing).captured,
    )
}

impl BitWorld {
    /// The bits that are alive, oldest first.
    pub closed spec fn bits(&self) -> Seq<Bit> {
        self.bits@
    }

    /// The absorbers that are alive, oldest first.
    pub closed spec fn absorbers(&self) -> Seq<AbsorberEntry> {
        self.absorbers@
    }

    /// How many handles have been handed out. The next handle is this
    /// number.
    pub closed spec fn issued(&self) -> nat {
        self.next_entity as nat
    }

    /// What holds of the arena between calls.
    pub open spec fn wf(&self) -> bool {
        &&& self.issued() <= u64::MAX
        &&& increasing(self.bits())
        &&& absorbers_increasing(self.absorbers())
        &&& bits_alive(self.bits(), self.issued())
        &&& all_below_threshold(self.bits())
        &&& all_in_range(self.absorbers())
        &&& forall|i: int|
            0 <= i < self.absorbers().len() ==> (#[trigger] self.absorbers()[i]).entity
                < self.issued()
        &&& total_mass(self.bits()) + tally_total(self.absorbers()) <= self.issued()
    }

    /// An arena with no bits and no absorbers.
    pub fn new() -> (world: BitWorld)
        ensures
            world.wf(),
            world.bits() == Seq::<Bit>::empty(),
            world.absorbers() == Seq::<AbsorberEntry>::empty(),
            world.issued() == 0,
    {
        BitWorld { bits: Vec::new(), absorbers: Vec::new(), next_entity: 0 }
    }

    /// The bits that are alive.
    pub fn live_bits(&self) -> (bits: &Vec<Bit>)
        ensures
            bits@ == self.bits(),
    {
        &self.bits
    }

    /// The absorbers that are alive.
    pub fn live_absorbers(&self) -> (absorbers: &Vec<AbsorberEntry>)
        ensures
            absorbers@ == self.absorbers(),
    {
        &self.absorbers
    }

    /// The handle that the next spawn will hand out.
    pub fn next_handle(&self) -> (next: u64)
        ensures
            next == self.issued(),
    {
        self.next_entity
    }

    /// Adds an absorber that pulls with `mass` and has taken nothing in,
    /// and returns its handle. Only an enemy absorber raises events.
    pub fn spawn_absorber(&mut self, mass: u64, enemy: bool) -> (entity: u64)
        requires
            old(self).wf(),
            old(self).issued() < u64::MAX,
        ensures
            final(self).wf(),
            entity == old(self).issued(),
            final(self).issued() == old(self).issued() + 1,
            final(self).bits() == old(self).bits(),
            final(self).absorbers() == old(self).absorbers().push(
                AbsorberEntry { entity, absorber: Absorber { mass, bits_absorbed: 0 }, enemy },
            ),
    {
        let entity = self.next_entity;
        let entry = AbsorberEntry { entity, absorber: Absorber::new(mass), enemy };
        proof {
            assert(self.absorbers@.push(entry).drop_last() =~= self.absorbers@);
        }
        self.absorbers.push(entry);
        self.next_entity = entity + 1;
        entity
    }

    /// Removes the absorber with the handle `entity`, if there is one, and
    /// says whether there was. Bits bound to it keep their link, which now
    /// dangles.
    pub fn despawn_absorber(&mut self, entity: u64) -> (removed: bool)
        requires
            old(self).wf(),
        ensures
            final(self).wf(),
            final(self).issued() == old(self).issued(),
            final(self).bits() == old(self).bits(),
            match absorber_position(old(self).absorbers(), entity) {
                Some(a) => removed && final(self).absorbers() == old(self).absorbers().remove(a),
                None => !removed && final(self).absorbers() == old(self).absorbers(),
            },
    {
        match find_absorber(&self.absorbers, entity) {
            Some(a) => {
                proof {
                    lemma_tally_remove(self.absorbers@, a as int);
                }
                let _ = self.absorbers.remove(a);
                true
            },
            None => false,
        }
    }

    /// Spawns one bit for each draw in `selections`, bound to the absorber
    /// at the place drawn, and returns the handles of the new bits. Each bit
    /// has the spawn mass and the full delay ahead of it. If there is no
    /// absorber, or a draw names none, the spawn fails as a whole and the
    /// arena is left as it was.
    pub fn spawn_bits(&mut self, selections: &Vec<usize>) -> (spawned: Result<Vec<u64>, BitError>)
        requires
            old(self).wf(),
            old(self).issued() + selections@.len() <= u64::MAX,
        ensures
            final(self).wf(),
            final(self).absorbers() == old(self).absorbers(),
            can_spawn(old(self).absorbers(), selections@) ==> {
                &&& spawned is Ok
                &&& spawned->Ok_0@ == handles_from(old(self).issued() as u64, selections@.len())
                &&& final(self).bits() == old(self).bits() + spawned_bits(
                    old(self).absorbers(),
                    old(self).issued() as u64,
                    selections@,
                )
                &&& final(self).issued() == old(self).issued() + selections@.len()
            },
            !can_spawn(old(self).absorbers(), selections@) ==> {
                &&& spawned == Err::<Vec<u64>, BitError>(BitError::MissingAbsorber)
                &&& final(self).bits() == old(self).bits()
                &&& final(self).issued() == old(self).issued()
            },
    {
        if self.absorbers.len() == 0 {
            return Err(BitError::MissingAbsorber);
        }
        let mut links: Vec<AbsorbeeOf> = Vec::new();
        let mut k: usize = 0;
        while k < selections.len()
            invariant
                k <= selections@.len(),
                links@.len() == k,
                self.wf(),
                self.bits@ == old(self).bits@,
                self.next_entity == old(self).next_entity,
                self.absorbers@ == old(self).absorbers@,
                forall|j: int| 0 <= j < k ==> selections@[j] < self.absorbers@.len(),
                forall|j: int|
                    0 <= j < k ==> links@[j] == AbsorbeeOf(
                        self.absorbers@[selections@[j] as int].entity,
                    ),
            decreases selections@.len() - k,
        {
            match assign_absorber(&self.absorbers, selections[k]) {
                Ok(link) => {
                    links.push(link);
                },
                Err(error) => {
                    return Err(error);
                },
            }
            k += 1;
        }
        let first = self.next_entity;
        let ghost planned = spawned_bits(self.absorbers@, first, selections@);
        let mut handles: Vec<u64> = Vec::new();
        let mut k: usize = 0;
        while k < links.len()
            invariant
                k <= links@.len(),
                links@.len() == selections@.len(),
                first == old(self).next_entity,
                first + selections@.len() <= u64::MAX,
                self.wf(),
                self.absorbers@ == old(self).absorbers@,
                self.next_entity == first + k,
                planned == spawned_bits(old(self).absorbers@, first, selections@),
                all_assignable(selections@, self.absorbers@.len()),
                forall|j: int|
                    0 <= j < links@.len() ==> links@[j] == AbsorbeeOf(
                        self.absorbers@[selections@[j] as int].entity,
                    ),
                self.bits@ == old(self).bits@ + planned.take(k as int),
                handles@ == handles_from(first, k as nat),
            decreases links@.len() - k,
        {
            let entity = self.next_entity;
            let bit = Bit::new(entity, links[k]);
            proof {
                lemma_total_mass_push(self.bits@, bit);
            }
            self.bits.push(bit);
            handles.push(entity);
            self.next_entity = entity + 1;
            k += 1;
        }
        Ok(handles)
    }

    /// Spawns `bits` bits, each bound to an absorber drawn at random from
    /// those alive, and returns their handles. With no absorber alive the
    /// call fails and spawns nothing.
    pub fn handle_bit_events(&mut self, bits: usize, rng: &mut StdRng) -> (spawned: Result<
        Vec<u64>,
        BitError,
    >)
        requires
            old(self).wf(),
            old(self).issued() + bits <= u64::MAX,
        ensures
            final(self).wf(),
            final(self).absorbers() == old(self).absorbers(),
            old(self).absorbers().len() == 0 ==> {
                &&& spawned == Err::<Vec<u64>, BitError>(BitError::MissingAbsorber)
                &&& final(self).bits() == old(self).bits()
                &&& final(self).issued() == old(self).issued()
            },
            old(self).absorbers().len() > 0 ==> {
                &&& spawned is Ok
                &&& spawned->Ok_0@ == handles_from(old(self).issued() as u64, bits as nat)
                &&& final(self).issued() == old(self).issued() + bits
                &&& exists|selections: Seq<usize>|
                    {
                        &&& selections.len() == bits
                        &&& all_assignable(selections, old(self).absorbers().len())
                        &&& final(self).bits() == old(self).bits() + #[trigger] spawned_bits(
                            old(self).absorbers(),
                            old(self).issued() as u64,
                            selections,
                        )
                    }
            },
    {
        match draw_selections(self.absorbers.len(), bits, rng) {
            Ok(selections) => self.spawn_bits(&selections),
            Err(error) => Err(error),
        }
    }

    /// The first phase of a tick: advances the timers of the pending bits
    /// by `delta` nanoseconds and returns the handles of the bits that
    /// became active.
    pub fn manage_timers(&mut self, delta: u64) -> (activated: Vec<u64>)
        requires
            old(self).wf(),
        ensures
            final(self).wf(),
            final(self).absorbers() == old(self).absorbers(),
            final(self).issued() == old(self).issued(),
            final(self).bits() == ticked_all(old(self).bits(), delta),
            activated@ == activations(old(self).bits(), delta),
    {
        proof {
            lemma_ticked_all(self.bits@, delta);
        }
        CoalesceTimer::manage_timers(&mut self.bits, delta)
    }

    /// The merge phase of a tick: resolves the touching pairs, applies the
    /// credits, raises an event for every bit that crossed the threshold,
    /// and takes those bits out of the arena. The result lists the
    /// survivors with their new masses, those that escalated among them.
    pub fn coalesce(&mut self, contacts: &Vec<(u64, u64)>) -> (merged: Merged)
        requires
            old(self).wf(),
        ensures
            final(self).wf(),
            final(self).absorbers() == old(self).absorbers(),
            final(self).issued() == old(self).issued(),
            merged.bits@ == survivors(old(self).bits(), resolve_all(old(self).bits(), contacts@)),
            merged.despawned@ == losers(
                old(self).bits(),
                resolve_all(old(self).bits(), contacts@),
            ),
            merged.events@ == escalations(
                old(self).bits(),
                resolve_all(old(self).bits(), contacts@),
                old(self).bits().len(),
            ),
            final(self).bits() == retired(merged.bits@),
    {
        proof {
            lemma_tally_nonnegative(self.absorbers@);
        }
        let merges = coalesce(&self.bits, contacts);
        let merged = apply_mass(&self.bits, &merges);
        let (stay, _) = retire(&merged.bits);
        proof {
            lemma_retired(self.bits@, contacts@, self.next_entity as nat);
        }
        self.bits = stay;
        merged
    }

    /// The capture phase of a tick: every bit that touches an absorber is
    /// taken into its tally and out of the arena.
    pub fn absorb(&mut self, contacts: &Vec<(u64, u64)>) -> (captured: Captured)
        requires
            old(self).wf(),
        ensures
            final(self).wf(),
            final(self).issued() == old(self).issued(),
            final(self).absorbers() == absorb_all(
                old(self).absorbers(),
                old(self).bits(),
                contacts@,
            ).absorbers,
            final(self).bits() == remaining(
                old(self).bits(),
                absorb_all(old(self).absorbers(), old(self).bits(), contacts@).captured,
            ),
            captured.despawned@ == taken(
                old(self).bits(),
                absorb_all(old(self).absorbers(), old(self).bits(), contacts@).captured,
            ),
            captured.events@ == absorb_all(
                old(self).absorbers(),
                old(self).bits(),
                contacts@,
            ).events,
    {
        proof {
            let state = absorb_all(self.absorbers@, self.bits@, contacts@);
            lemma_absorb_all_balanced(self.absorbers@, self.bits@, contacts@);
            lemma_absorb_all_in_range(self.absorbers@, self.bits@, contacts@);
            lemma_remaining_total(self.bits@, state.captured, self.bits@.len());
            lemma_kept_origin(self.bits@, state.captured, self.bits@.len());
            lemma_kept_increasing(self.bits@, state.captured, self.bits@.len());
            let left = remaining(self.bits@, state.captured);
            assert forall|j: int| 0 <= j < left.len() implies {
                &&& (#[trigger] left[j]).entity < self.next_entity
                &&& left[j].mass.0 >= SPAWN_MASS
                &&& !left[j].mass.escalates()
                &&& match left[j].timer {
                    Some(timer) => !timer.finished(),
                    None => true,
                }
            } by {
                assert(is_kept_from(self.bits@, state.captured, self.bits@.len(), j, left[j]));
            }
            assert(MASS_THRESHOLD * state.crossings >= 0) by (nonlinear_arith)
                requires
                    state.crossings >= 0,
            ;
        }
        let absorbed = absorb(&mut self.absorbers, &self.bits, contacts);
        let Absorbed { bits, despawned, events } = absorbed;
        self.bits = bits;
        Captured { despawned, events }
    }

    /// One tick: the timers are advanced by `delta` nanoseconds, then the
    /// pairs of bits in `touching` are merged, then the pairs in
    /// `absorbing`, each an absorber and a bit, are captured. A bit that was
    /// merged away or that escalated in the merge phase is gone before the
    /// capture phase begins.
    pub fn step(
        &mut self,
        delta: u64,
        touching: &Vec<(u64, u64)>,
        absorbing: &Vec<(u64, u64)>,
    ) -> (tick: Tick)
        requires
            old(self).wf(),
        ensures
            final(self).wf(),
            final(self).issued() == old(self).issued(),
            tick.activated@ == activations(old(self).bits(), delta),
            tick.merged@ == merged_in_tick(old(self).bits(), delta, touching@),
            tick.despawned@ == losers_in_tick(old(self).bits(), delta, touching@) + taken(
                bits_after_merges(old(self).bits(), delta, touching@),
                capture_of_tick(
                    old(self).bits(),
                    old(self).absorbers(),
                    delta,
                    touching@,
                    absorbing@,
                ).captured,
            ),
            tick.events@ == events_of_merges(old(self).bits(), delta, touching@) + capture_of_tick(
                old(self).bits(),
                old(self).absorbers(),
                delta,
                touching@,
                absorbing@,
            ).events,
            final(self).bits() == bits_after_tick(
                old(self).bits(),
                old(self).absorbers(),
                delta,
                touching@,
                absorbing@,
            ),
            final(self).absorbers() == capture_of_tick(
                old(self).bits(),
                old(self).absorbers(),
                delta,
                touching@,
                absorbing@,
            ).absorbers,
    {
        let activated = self.manage_timers(delta);
        let Merged { bits, despawned, events } = self.coalesce(touching);
        let Captured { despawned: captured, events: raised } = self.absorb(absorbing);
        let mut despawned = despawned;
        let mut captured = captured;
        despawned.append(&mut captured);
        let mut events = events;
        let mut raised = raised;
        events.append(&mut raised);
        Tick { activated, merged: bits, despawned, events }
    }
}

/// Once the bits that escalated are taken out, the survivors of a round
/// that began with live bits are again live bits, all below the threshold,
/// with handles that grow, and they weigh no more than the bits did before
/// the round.
proof fn lemma_retired(bits: Seq<Bit>, contacts: Seq<(u64, u64)>, issued: nat)
    requires
        increasing(bits),
        bits_alive(bits, issued),
        total_mass(bits) <= u64::MAX,
    ensures
        increasing(retired(survivors(bits, resolve_all(bits, contacts)))),
        bits_alive(retired(survivors(bits, resolve_all(bits, contacts))), issued),
        all_below_threshold(retired(survivors(bits, resolve_all(bits, contacts)))),
        total_mass(retired(survivors(bits, resolve_all(bits, contacts)))) <= total_mass(bits),
{
    let state = resolve_all(bits, contacts);
    let merged = survivors(bits, state);
    let marks = escalated_marks(merged);
    let out = retired(merged);
    lemma_round(bits, contacts);
    lemma_kept_origin(merged, marks, merged.len());
    lemma_kept_increasing(merged, marks, merged.len());
    lemma_kept_total(merged, marks, merged.len());
    assert(merged.take(merged.len() as int) =~= merged);
    assert forall|j: int| 0 <= j < out.len() implies {
        &&& (#[trigger] out[j]).entity < issued
        &&& out[j].mass.0 >= SPAWN_MASS
        &&& !out[j].mass.escalates()
        &&& match out[j].timer {
            Some(timer) => !timer.finished(),
            None => true,
        }
    } by {
        assert(is_kept_from(merged, marks, merged.len(), j, out[j]));
        let i = choose|i: int| j <= i < merged.len() && !marks[i] && #[trigger] merged[i] == out[j];
        assert(has_origin(bits, state, merged[i]));
        let origin = choose|o: int|
            0 <= o < bits.len() && #[trigger] is_survivor_of(bits, state, o, merged[i]);
        assert(bits[origin].entity < issued);
    }
}

/// Taking an entry out of the list takes its tally out of the sum.
proof fn lemma_tally_remove(absorbers: Seq<AbsorberEntry>, a: int)
    requires
        0 <= a < absorbers.len(),
    ensures
        tally_total(absorbers.remove(a)) == tally_total(absorbers)
            - absorbers[a].absorber.bits_absorbed,
    decreases absorbers.len(),
{
    if a < absorbers.len() - 1 {
        lemma_tally_remove(absorbers.drop_last(), a);
        assert(absorbers.remove(a).drop_last() =~= absorbers.drop_last().remove(a));
    }
}

} // verus!
