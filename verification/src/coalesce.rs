//! Merging of active bits that touch.
//!
//! A round of merging takes the bits as they stand and the pairs of handles
//! that the physics step reported as touching, in the order it reported them.
//! Each pair is resolved in turn. A pair counts only if both handles name
//! active bits, the two bits differ, and neither has lost a merge earlier in
//! the round. Of such a pair the bit with the lower mass loses; on equal
//! masses the bit named first wins. Masses are compared as they were when the
//! round began. The winner is credited with everything the loser holds, its
//! mass and whatever the loser had itself won earlier in the round, so no
//! mass is lost when a winner later loses. Credits are kept apart from the
//! masses until every pair is resolved and are then applied in one go.

use vstd::prelude::*;
use crate::bit::dropped_handles;
use crate::bit::find;
use crate::bit::increasing;
use crate::bit::is_kept_from;
use crate::bit::lemma_kept_increasing;
use crate::bit::lemma_kept_origin;
use crate::bit::sift;
use crate::bit::kept;
use crate::bit::lemma_total_mass_push;
use crate::bit::position;
use crate::bit::total_mass;
use crate::bit::Bit;
use crate::mass::BitMass;
use crate::mass::CoalesceEvent;
use crate::mass::MASS_THRESHOLD;

verus! {

/// What a round of merging has decided so far, one entry for each place in
/// the list of bits: the mass credited to the bit at that place, and whether
/// it has lost a merge.
pub struct MergeState {
    pub temp_mass: Seq<int>,
    pub has_coalesced: Seq<bool>,
}

impl MergeState {
    /// The state before any pair is resolved: nothing credited, nobody lost.
    pub open spec fn fresh(n: nat) -> MergeState {
        MergeState {
            temp_mass: Seq::new(n, |i: int| 0int),
            has_coalesced: Seq::new(n, |i: int| false),
        }
    }

    /// Whether the state has one entry for each of `n` bits.
    pub open spec fn shaped(self, n: nat) -> bool {
        self.temp_mass.len() == n && self.has_coalesced.len() == n
    }

    /// The state after the bit at `loser` is merged into the bit at
    /// `winner`: the winner is credited with the loser's mass and with what
    /// the loser had been credited, and the loser is marked.
    pub open spec fn merge_into(self, bits: Seq<Bit>, winner: int, loser: int) -> MergeState {
        MergeState {
            temp_mass: self.temp_mass.update(
                winner,
                self.temp_mass[winner] + bits[loser].mass.0 + self.temp_mass[loser],
            ).update(loser, 0),
            has_coalesced: self.has_coalesced.update(loser, true),
        }
    }
}

/// Whether the bit at place `i` can still take part in a merge this round.
pub open spec fn can_merge(bits: Seq<Bit>, state: MergeState, i: int) -> bool {
    &&& 0 <= i < bits.len()
    &&& bits[i].is_active()
    &&& !state.has_coalesced[i]
}

/// Of two places that merge, the one that wins: the heavier bit, and on
/// equal masses the one named first.
pub open spec fn winner_of(bits: Seq<Bit>, first: int, second: int) -> int {
    if bits[first].mass.0 >= bits[second].mass.0 {
        first
    } else {
        second
    }
}

/// Of two places that merge, the one that loses.
pub open spec fn loser_of(bits: Seq<Bit>, first: int, second: int) -> int {
    if bits[first].mass.0 >= bits[second].mass.0 {
        second
    } else {
        first
    }
}

/// The state after one touching pair is resolved.
pub open spec fn resolve_pair(bits: Seq<Bit>, state: MergeState, pair: (u64, u64)) -> MergeState {
    match (position(bits, pair.0), position(bits, pair.1)) {
        (Some(first), Some(second)) => if first != second && can_merge(bits, state, first)
            && can_merge(bits, state, second) {
            state.merge_into(
                bits,
                winner_of(bits, first, second),
                loser_of(bits, first, second),
            )
        } else {
            state
        },
        _ => state,
    }
}

/// The state after every pair of `contacts` is resolved, first to last.
pub open spec fn resolve_all(bits: Seq<Bit>, contacts: Seq<(u64, u64)>) -> MergeState
    decreases contacts.len(),
{
    if contacts.len() == 0 {
        MergeState::fresh(bits.len())
    } else {
        resolve_pair(bits, resolve_all(bits, contacts.drop_last()), contacts.last())
    }
}

/// The mass that the bit at place `i` stands for: nothing once it has lost,
/// else its own mass and what it has been credited.
pub open spec fn held(bits: Seq<Bit>, state: MergeState, i: int) -> int {
    if state.has_coalesced[i] {
        0
    } else {
        bits[i].mass.0 + state.temp_mass[i]
    }
}

/// The mass that the first `n` places stand for.
pub open spec fn held_total(bits: Seq<Bit>, state: MergeState, n: nat) -> int
    decreases n,
{
    if n == 0 {
        0
    } else {
        held_total(bits, state, (n - 1) as nat) + held(bits, state, n - 1)
    }
}

/// What holds of the state at every point of a round: it has an entry for
/// each bit, credits are never negative, a bit that lost holds no credit,
/// and the places together stand for exactly the mass the round began with.
pub open spec fn sound(bits: Seq<Bit>, state: MergeState) -> bool {
    &&& state.shaped(bits.len())
    &&& forall|i: int| 0 <= i < bits.len() ==> 0 <= #[trigger] state.temp_mass[i]
    &&& forall|i: int|
        0 <= i < bits.len() && #[trigger] state.has_coalesced[i] ==> state.temp_mass[i] == 0
    &&& held_total(bits, state, bits.len()) == total_mass(bits)
}

/// The bit at place `i` with its credit applied.
pub open spec fn merged_bit(bits: Seq<Bit>, state: MergeState, i: int) -> Bit {
    Bit {
        entity: bits[i].entity,
        mass: BitMass((bits[i].mass.0 + state.temp_mass[i]) as u64),
        timer: bits[i].timer,
        absorber: bits[i].absorber,
    }
}

/// The bits with their credits applied, place by place.
pub open spec fn credited(bits: Seq<Bit>, state: MergeState) -> Seq<Bit> {
    Seq::new(bits.len(), |i: int| merged_bit(bits, state, i))
}

/// The bits that did not lose, in order, each with its credit applied.
pub open spec fn survivors(bits: Seq<Bit>, state: MergeState) -> Seq<Bit> {
    kept(credited(bits, state), state.has_coalesced, bits.len())
}

/// The handles of the bits that lost, in order.
pub open spec fn losers(bits: Seq<Bit>, state: MergeState) -> Seq<u64> {
    dropped_handles(bits, state.has_coalesced, bits.len())
}

/// Whether applying the credit of the bit at place `i` raises an event: the
/// bit did not lose, and its mass crosses the threshold from below.
pub open spec fn escalates_at(bits: Seq<Bit>, state: MergeState, i: int) -> bool {
    !state.has_coalesced[i] && bits[i].mass.crosses(merged_bit(bits, state, i).mass)
}

/// The events raised for the first `n` places, in order.
pub open spec fn escalations(bits: Seq<Bit>, state: MergeState, n: nat) -> Seq<CoalesceEvent>
    decreases n,
{
    if n == 0 {
        Seq::empty()
    } else {
        let before = escalations(bits, state, (n - 1) as nat);
        if escalates_at(bits, state, n - 1) {
            before.push(CoalesceEvent(bits[n - 1].entity))
        } else {
            before
        }
    }
}

/// Before any pair is resolved the places stand for the masses of the bits.
proof fn lemma_fresh_total(bits: Seq<Bit>, n: nat)
    requires
        n <= bits.len(),
    ensures
        held_total(bits, MergeState::fresh(bits.len()), n) == total_mass(bits.take(n as int)),
    decreases n,
{
    if n > 0 {
        lemma_fresh_total(bits, (n - 1) as nat);
        assert(bits.take(n as int).drop_last() =~= bits.take(n - 1));
    }
}

/// The state before any pair is resolved is sound.
pub proof fn lemma_fresh_sound(bits: Seq<Bit>)
    ensures
        sound(bits, MergeState::fresh(bits.len())),
{
    lemma_fresh_total(bits, bits.len());
    assert(bits.take(bits.len() as int) =~= bits);
}

/// A merge moves what the loser holds to the winner, place by place.
proof fn lemma_merge_total(bits: Seq<Bit>, state: MergeState, winner: int, loser: int, n: nat)
    requires
        state.shaped(bits.len()),
        n <= bits.len(),
        winner != loser,
        can_merge(bits, state, winner),
        can_merge(bits, state, loser),
    ensures
        held_total(bits, state.merge_into(bits, winner, loser), n) == held_total(bits, state, n) + (
        if winner < n {
            held(bits, state, loser)
        } else {
            0
        }) - (if loser < n {
            held(bits, state, loser)
        } else {
            0
        }),
    decreases n,
{
    if n > 0 {
        lemma_merge_total(bits, state, winner, loser, (n - 1) as nat);
    }
}

/// No two places stand for more than all places together.
proof fn lemma_pair_within_total(bits: Seq<Bit>, state: MergeState, a: int, b: int, n: nat)
    requires
        state.shaped(bits.len()),
        n <= bits.len(),
        a != b,
        0 <= a < bits.len(),
        0 <= b < bits.len(),
        forall|i: int| 0 <= i < bits.len() ==> 0 <= #[trigger] state.temp_mass[i],
    ensures
        held_total(bits, state, n) >= (if a < n {
            held(bits, state, a)
        } else {
            0
        }) + (if b < n {
            held(bits, state, b)
        } else {
            0
        }),
    decreases n,
{
    if n > 0 {
        lemma_pair_within_total(bits, state, a, b, (n - 1) as nat);
    }
}

/// Resolving a pair keeps the state sound.
pub proof fn lemma_resolve_pair_sound(bits: Seq<Bit>, state: MergeState, pair: (u64, u64))
    requires
        sound(bits, state),
    ensures
        sound(bits, resolve_pair(bits, state, pair)),
{
    match (position(bits, pair.0), position(bits, pair.1)) {
        (Some(first), Some(second)) => {
            if first != second && can_merge(bits, state, first) && can_merge(bits, state, second) {
                let winner = winner_of(bits, first, second);
                let loser = loser_of(bits, first, second);
                lemma_merge_total(bits, state, winner, loser, bits.len());
            }
        },
        _ => {},
    }
}

/// The state is sound after any number of pairs.
pub proof fn lemma_resolve_all_sound(bits: Seq<Bit>, contacts: Seq<(u64, u64)>)
    ensures
        sound(bits, resolve_all(bits, contacts)),
    decreases contacts.len(),
{
    if contacts.len() == 0 {
        lemma_fresh_sound(bits);
    } else {
        lemma_resolve_all_sound(bits, contacts.drop_last());
        lemma_resolve_pair_sound(bits, resolve_all(bits, contacts.drop_last()), contacts.last());
    }
}

/// In a sound state whose total fits in 64 bits, every survivor's new mass
/// fits too, and the survivors together weigh what the places stand for.
pub proof fn lemma_survivors_total(bits: Seq<Bit>, state: MergeState, n: nat)
    requires
        sound(bits, state),
        total_mass(bits) <= u64::MAX,
        n <= bits.len(),
    ensures
        total_mass(kept(credited(bits, state), state.has_coalesced, n)) == held_total(
            bits,
            state,
            n,
        ),
        0 <= held_total(bits, state, n) <= total_mass(bits),
    decreases n,
{
    lemma_held_prefix(bits, state, n, bits.len());
    if n > 0 {
        lemma_survivors_total(bits, state, (n - 1) as nat);
        if !state.has_coalesced[n - 1] {
            lemma_total_mass_push(
                kept(credited(bits, state), state.has_coalesced, (n - 1) as nat),
                merged_bit(bits, state, n - 1),
            );
        }
    }
}

/// No place stands for more than all places together.
pub proof fn lemma_held_within_total(bits: Seq<Bit>, state: MergeState, i: int)
    requires
        state.shaped(bits.len()),
        0 <= i < bits.len(),
        forall|j: int| 0 <= j < bits.len() ==> 0 <= #[trigger] state.temp_mass[j],
    ensures
        0 <= held(bits, state, i) <= held_total(bits, state, bits.len()),
{
    let other: int = if i == 0 {
        1
    } else {
        0
    };
    if bits.len() >= 2 {
        lemma_pair_within_total(bits, state, i, other, bits.len());
    } else {
        assert(held_total(bits, state, 1) == held_total(bits, state, 0) + held(bits, state, 0));
    }
}

/// The first places stand for no more than all places.
proof fn lemma_held_prefix(bits: Seq<Bit>, state: MergeState, n: nat, m: nat)
    requires
        state.shaped(bits.len()),
        n <= m <= bits.len(),
        forall|j: int| 0 <= j < bits.len() ==> 0 <= #[trigger] state.temp_mass[j],
    ensures
        0 <= held_total(bits, state, n) <= held_total(bits, state, m),
    decreases m,
{
    if n < m {
        lemma_held_prefix(bits, state, n, (m - 1) as nat);
    } else if n > 0 {
        lemma_held_prefix(bits, state, (n - 1) as nat, (n - 1) as nat);
    }
}

/// What a round of merging comes to. The survivors weigh together what the
/// bits weighed before the round. Every survivor is one of the bits, at a
/// place that did not lose: it keeps its handle, its timer and its link, and
/// its mass is its old mass and a credit that is never negative. Survivors
/// stand in the order of their places.
pub proof fn lemma_round(bits: Seq<Bit>, contacts: Seq<(u64, u64)>)
    requires
        total_mass(bits) <= u64::MAX,
    ensures
        sound(bits, resolve_all(bits, contacts)),
        total_mass(survivors(bits, resolve_all(bits, contacts))) == total_mass(bits),
        survivors(bits, resolve_all(bits, contacts)).len() <= bits.len(),
        forall|j: int|
            0 <= j < survivors(bits, resolve_all(bits, contacts)).len() ==> has_origin(
                bits,
                resolve_all(bits, contacts),
                #[trigger] survivors(bits, resolve_all(bits, contacts))[j],
            ),
        increasing(bits) ==> increasing(survivors(bits, resolve_all(bits, contacts))),
{
    let state = resolve_all(bits, contacts);
    let grown = credited(bits, state);
    let out = survivors(bits, state);
    lemma_resolve_all_sound(bits, contacts);
    lemma_survivors_total(bits, state, bits.len());
    lemma_kept_origin(grown, state.has_coalesced, bits.len());
    assert forall|j: int| 0 <= j < out.len() implies has_origin(bits, state, #[trigger] out[j]) by {
        assert(is_kept_from(grown, state.has_coalesced, bits.len(), j, out[j]));
        let i = choose|i: int|
            j <= i < bits.len() && !state.has_coalesced[i] && #[trigger] grown[i] == out[j];
        lemma_held_within_total(bits, state, i);
        assert(is_survivor_of(bits, state, i, out[j]));
    }
    if increasing(bits) {
        lemma_kept_increasing(grown, state.has_coalesced, bits.len());
    }
}

/// Whether `bit` is what the round made of the bit at place `i`: that bit
/// did not lose, and `bit` is that bit with a credit, never negative, added
/// to its mass.
pub open spec fn is_survivor_of(bits: Seq<Bit>, state: MergeState, i: int, bit: Bit) -> bool {
    &&& !state.has_coalesced[i]
    &&& 0 <= state.temp_mass[i]
    &&& bit.entity == bits[i].entity
    &&& bit.timer == bits[i].timer
    &&& bit.absorber == bits[i].absorber
    &&& bit.mass.0 == bits[i].mass.0 + state.temp_mass[i]
}

/// Whether `bit` is what the round made of some bit that did not lose.
pub open spec fn has_origin(bits: Seq<Bit>, state: MergeState, bit: Bit) -> bool {
    exists|i: int| 0 <= i < bits.len() && #[trigger] is_survivor_of(bits, state, i, bit)
}

/// For each place, whether the bit there is at or above the threshold.
pub open spec fn escalated_marks(bits: Seq<Bit>) -> Seq<bool> {
    Seq::new(bits.len(), |i: int| bits[i].mass.escalates())
}

/// The bits below the threshold, in order: what is left once every bit at or
/// above it has been destroyed.
pub open spec fn retired(bits: Seq<Bit>) -> Seq<Bit> {
    kept(bits, escalated_marks(bits), bits.len())
}

/// The handles of the bits at or above the threshold, in order.
pub open spec fn retirees(bits: Seq<Bit>) -> Seq<u64> {
    dropped_handles(bits, escalated_marks(bits), bits.len())
}

/// An event is raised for a handle exactly when a bit with that handle
/// crosses the threshold, and events come in the order of the places.
pub proof fn lemma_escalations(bits: Seq<Bit>, state: MergeState, n: nat)
    requires
        n <= bits.len(),
    ensures
        escalations(bits, state, n).len() <= n,
        forall|k: int|
            0 <= k < escalations(bits, state, n).len() ==> is_raised_from(
                bits,
                state,
                n,
                k,
                #[trigger] escalations(bits, state, n)[k],
            ),
        forall|i: int|
            0 <= i < n && escalates_at(bits, state, i) ==> escalations(bits, state, n).contains(
                CoalesceEvent(#[trigger] bits[i].entity),
            ),
    decreases n,
{
    if n > 0 {
        lemma_escalations(bits, state, (n - 1) as nat);
        let before = escalations(bits, state, (n - 1) as nat);
        let now = escalations(bits, state, n);
        assert forall|k: int| 0 <= k < now.len() implies is_raised_from(
            bits,
            state,
            n,
            k,
            #[trigger] now[k],
        ) by {
            if k < before.len() {
                assert(is_raised_from(bits, state, (n - 1) as nat, k, before[k]));
                let i = choose|i: int|
                    k <= i < n - 1 && escalates_at(bits, state, i) && CoalesceEvent(
                        #[trigger] bits[i].entity,
                    ) == before[k];
                assert(k <= i < n && escalates_at(bits, state, i) && CoalesceEvent(bits[i].entity)
                    == now[k]);
            } else {
                assert(k <= n - 1 < n && escalates_at(bits, state, n - 1) && CoalesceEvent(
                    bits[n - 1].entity,
                ) == now[k]);
            }
        }
        assert forall|i: int| 0 <= i < n && escalates_at(bits, state, i) implies now.contains(
            CoalesceEvent(#[trigger] bits[i].entity),
        ) by {
            if i < n - 1 {
                let k = choose|k: int|
                    0 <= k < before.len() && before[k] == CoalesceEvent(bits[i].entity);
                assert(now[k] == CoalesceEvent(bits[i].entity));
            } else {
                assert(now[now.len() - 1] == CoalesceEvent(bits[i].entity));
            }
        }
    }
}

/// Whether `event` is raised for a bit that crosses the threshold at one of
/// the first `n` places, no earlier than place `k`.
pub open spec fn is_raised_from(
    bits: Seq<Bit>,
    state: MergeState,
    n: nat,
    k: int,
    event: CoalesceEvent,
) -> bool {
    exists|i: int|
        k <= i < n && escalates_at(bits, state, i) && CoalesceEvent(#[trigger] bits[i].entity)
            == event
}

/// Where the handles of the bits grow, so do the handles of the events: no
/// bit raises two events in one round.
pub proof fn lemma_escalations_increasing(bits: Seq<Bit>, state: MergeState, n: nat)
    requires
        n <= bits.len(),
        increasing(bits),
    ensures
        forall|a: int, b: int|
            0 <= a < b < escalations(bits, state, n).len() ==> escalations(bits, state, n)[a].0
                < escalations(bits, state, n)[b].0,
        forall|k: int|
            0 <= k < escalations(bits, state, n).len() && n < bits.len() ==> (
            #[trigger] escalations(bits, state, n)[k]).0 < bits[n as int].entity,
    decreases n,
{
    lemma_escalations(bits, state, n);
    let now = escalations(bits, state, n);
    assert forall|k: int| 0 <= k < now.len() && n < bits.len() implies (#[trigger] now[k]).0
        < bits[n as int].entity by {
        assert(is_raised_from(bits, state, n, k, now[k]));
        let i = choose|i: int|
            k <= i < n && escalates_at(bits, state, i) && CoalesceEvent(#[trigger] bits[i].entity)
                == now[k];
        assert(bits[i].entity < bits[n as int].entity);
    }
    if n > 0 {
        lemma_escalations_increasing(bits, state, (n - 1) as nat);
        let before = escalations(bits, state, (n - 1) as nat);
        assert forall|a: int, b: int| 0 <= a < b < now.len() implies now[a].0 < now[b].0 by {
            if b < before.len() {
                assert(before[a].0 < before[b].0);
            } else {
                assert(before[a].0 < bits[n - 1].entity);
            }
        }
    }
}

/// The decisions of a round as the engine holds them: for each place in the
/// list of bits, the mass credited to that bit and whether it lost.
pub struct Merges {
    pub temp_mass: Vec<u64>,
    pub has_coalesced: Vec<bool>,
}

impl View for Merges {
    type V = MergeState;

    open spec fn view(&self) -> MergeState {
        MergeState {
            temp_mass: Seq::new(self.temp_mass@.len(), |i: int| self.temp_mass@[i] as int),
            has_coalesced: self.has_coalesced@,
        }
    }
}

/// What a round of merging leaves behind: the bits that did not lose, with
/// their credits applied; the handles of the bits that lost and are to be
/// destroyed; and the events for the bits whose mass crossed the threshold.
pub struct Merged {
    pub bits: Vec<Bit>,
    pub despawned: Vec<u64>,
    pub events: Vec<CoalesceEvent>,
}

/// Resolves every pair of `contacts` in turn and returns the decisions,
/// without touching the bits themselves.
pub fn coalesce(bits: &Vec<Bit>, contacts: &Vec<(u64, u64)>) -> (merges: Merges)
    requires
        total_mass(bits@) <= u64::MAX,
    ensures
        merges@ == resolve_all(bits@, contacts@),
        sound(bits@, merges@),
{
    let mut temp_mass: Vec<u64> = Vec::new();
    let mut has_coalesced: Vec<bool> = Vec::new();
    let mut n: usize = 0;
    while n < bits.len()
        invariant
            n <= bits.len(),
            temp_mass@.len() == n,
            has_coalesced@.len() == n,
            forall|i: int| 0 <= i < n ==> temp_mass@[i] == 0,
            forall|i: int| 0 <= i < n ==> !has_coalesced@[i],
        decreases bits.len() - n,
    {
        temp_mass.push(0);
        has_coalesced.push(false);
        n += 1;
    }
    let mut merges = Merges { temp_mass, has_coalesced };
    assert(merges@.temp_mass =~= MergeState::fresh(bits@.len()).temp_mass);
    assert(merges@.has_coalesced =~= MergeState::fresh(bits@.len()).has_coalesced);
    let mut k: usize = 0;
    while k < contacts.len()
        invariant
            k <= contacts.len(),
            total_mass(bits@) <= u64::MAX,
            merges@ == resolve_all(bits@, contacts@.take(k as int)),
        decreases contacts.len() - k,
    {
        let pair = contacts[k];
        proof {
            assert(contacts@.take(k + 1).drop_last() =~= contacts@.take(k as int));
            lemma_resolve_all_sound(bits@, contacts@.take(k as int));
        }
        resolve(bits, &mut merges, pair);
        k += 1;
    }
    proof {
        assert(contacts@.take(k as int) =~= contacts@);
        lemma_resolve_all_sound(bits@, contacts@);
    }
    merges
}

/// Resolves one touching pair.
fn resolve(bits: &Vec<Bit>, merges: &mut Merges, pair: (u64, u64))
    requires
        total_mass(bits@) <= u64::MAX,
        sound(bits@, old(merges)@),
    ensures
        final(merges)@ == resolve_pair(bits@, old(merges)@, pair),
{
    let first = match find(bits, pair.0) {
        Some(i) => i,
        None => {
            return ;
        },
    };
    let second = match find(bits, pair.1) {
        Some(i) => i,
        None => {
            return ;
        },
    };
    if first == second {
        return ;
    }
    if !bits[first].active() || merges.has_coalesced[first] {
        return ;
    }
    if !bits[second].active() || merges.has_coalesced[second] {
        return ;
    }
    let first_wins = bits[first].mass.0 >= bits[second].mass.0;
    let winner: usize = if first_wins {
        first
    } else {
        second
    };
    let loser: usize = if first_wins {
        second
    } else {
        first
    };
    proof {
        lemma_pair_within_total(bits@, merges@, winner as int, loser as int, bits@.len());
    }
    let ghost before = merges@;
    let credit: u64 = merges.temp_mass[winner] + bits[loser].mass.0 + merges.temp_mass[loser];
    merges.temp_mass[winner] = credit;
    merges.temp_mass[loser] = 0;
    merges.has_coalesced[loser] = true;
    assert(merges@.temp_mass =~= before.merge_into(bits@, winner as int, loser as int).temp_mass);
    assert(merges@.has_coalesced =~= before.merge_into(
        bits@,
        winner as int,
        loser as int,
    ).has_coalesced);
}

/// Applies the credits of a round: every bit that did not lose gets its new
/// mass, every bit that lost is listed for destruction, and an event is
/// raised for every bit whose mass crossed the threshold.
pub fn apply_mass(bits: &Vec<Bit>, merges: &Merges) -> (merged: Merged)
    requires
        sound(bits@, merges@),
        total_mass(bits@) <= u64::MAX,
    ensures
        merged.bits@ == survivors(bits@, merges@),
        merged.despawned@ == losers(bits@, merges@),
        merged.events@ == escalations(bits@, merges@, bits@.len()),
{
    let mut stay: Vec<Bit> = Vec::new();
    let mut despawned: Vec<u64> = Vec::new();
    let mut events: Vec<CoalesceEvent> = Vec::new();
    let mut n: usize = 0;
    while n < bits.len()
        invariant
            n <= bits.len(),
            sound(bits@, merges@),
            total_mass(bits@) <= u64::MAX,
            stay@ == kept(credited(bits@, merges@), merges@.has_coalesced, n as nat),
            despawned@ == dropped_handles(bits@, merges@.has_coalesced, n as nat),
            events@ == escalations(bits@, merges@, n as nat),
        decreases bits.len() - n,
    {
        let bit = bits[n];
        if merges.has_coalesced[n] {
            despawned.push(bit.entity);
        } else {
            proof {
                lemma_held_within_total(bits@, merges@, n as int);
            }
            let mass = BitMass(bit.mass.0 + merges.temp_mass[n]);
            stay.push(Bit { entity: bit.entity, mass, timer: bit.timer, absorber: bit.absorber });
            if bit.mass.0 < MASS_THRESHOLD {
                match mass.insert(bit.entity) {
                    Some(event) => {
                        events.push(event);
                    },
                    None => {},
                }
            }
        }
        n += 1;
    }
    Merged { bits: stay, despawned, events }
}

/// Takes the bits at or above the threshold out of play. An event has been
/// raised for each of them, and a bit that has raised its event is
/// destroyed, so that it cannot raise another. Returns the bits that stay
/// and the handles of those that go.
pub fn retire(bits: &Vec<Bit>) -> (parts: (Vec<Bit>, Vec<u64>))
    ensures
        parts.0@ == retired(bits@),
        parts.1@ == retirees(bits@),
{
    let mut marks: Vec<bool> = Vec::new();
    let mut n: usize = 0;
    while n < bits.len()
        invariant
            n <= bits.len(),
            marks@.len() == n,
            forall|i: int| 0 <= i < n ==> marks@[i] == bits@[i].mass.escalates(),
        decreases bits.len() - n,
    {
        marks.push(bits[n].mass.0 >= MASS_THRESHOLD);
        n += 1;
    }
    assert(marks@ =~= escalated_marks(bits@));
    sift(bits, &marks)
}

} // verus!
