//! The record the engine keeps of one bit, and how bits are found by handle.

use vstd::prelude::*;
use crate::handle::first_index;
use crate::handle::lemma_first_index;
use crate::handle::lemma_first_index_is;
use crate::mass::BitMass;
use crate::mass::SPAWN_MASS;
use crate::timer::CoalesceTimer;
use crate::timer::COALESCE_DELAY;

verus! {

/// The absorber a bit was assigned to when it was spawned, by handle. The
/// link is set once and never changed; the absorber may be gone by the time
/// the link is followed.
#[derive(Clone, Copy, Debug, PartialEq, Eq, Structural)]
pub struct AbsorbeeOf(pub u64);

/// One bit: its handle, its mass, its countdown while it is pending, and the
/// absorber it is drawn to.
#[derive(Clone, Copy, Debug)]
pub struct Bit {
    pub entity: u64,
    pub mass: BitMass,
    pub timer: Option<CoalesceTimer>,
    pub absorber: AbsorbeeOf,
}

impl Bit {
    /// A bit is active once its timer has been taken off. Until then it is
    /// pending, and its collider is disabled.
    pub open spec fn is_active(self) -> bool {
        self.timer is None
    }

    /// The bit as it is spawned: unit mass, the full delay ahead of it, and
    /// bound to `absorber`.
    pub open spec fn spawned(entity: u64, absorber: AbsorbeeOf) -> Bit {
        Bit {
            entity,
            mass: BitMass(SPAWN_MASS),
            timer: Some(CoalesceTimer(COALESCE_DELAY)),
            absorber,
        }
    }

    /// Makes the bit that a spawn creates.
    pub fn new(entity: u64, absorber: AbsorbeeOf) -> (bit: Bit)
        ensures
            bit == Bit::spawned(entity, absorber),
    {
        Bit { entity, mass: BitMass(SPAWN_MASS), timer: Some(CoalesceTimer::default()), absorber }
    }

    /// Whether the bit may take part in merges.
    pub fn active(&self) -> (active: bool)
        ensures
            active == self.is_active(),
    {
        self.timer.is_none()
    }
}

/// The sum of the masses of `bits`.
pub open spec fn total_mass(bits: Seq<Bit>) -> int
    decreases bits.len(),
{
    if bits.len() == 0 {
        0
    } else {
        total_mass(bits.drop_last()) + bits.last().mass.0
    }
}

/// The handles of `bits`, place by place.
pub open spec fn handles(bits: Seq<Bit>) -> Seq<u64> {
    Seq::new(bits.len(), |i: int| bits[i].entity)
}

/// The first place in `bits` that holds the handle `entity`, if any does.
pub open spec fn position(bits: Seq<Bit>, entity: u64) -> Option<int> {
    first_index(handles(bits), entity)
}

/// Adding a bit at the end adds its mass to the total.
pub proof fn lemma_total_mass_push(bits: Seq<Bit>, bit: Bit)
    ensures
        total_mass(bits.push(bit)) == total_mass(bits) + bit.mass.0,
{
    assert(bits.push(bit).drop_last() =~= bits);
}

/// The bits among the first `n` whose place is not marked in `dropped`, in
/// order.
pub open spec fn kept(bits: Seq<Bit>, dropped: Seq<bool>, n: nat) -> Seq<Bit>
    decreases n,
{
    if n == 0 {
        Seq::empty()
    } else {
        let before = kept(bits, dropped, (n - 1) as nat);
        if dropped[n - 1] {
            before
        } else {
            before.push(bits[n - 1])
        }
    }
}

/// The handles of the bits among the first `n` whose place is marked in
/// `dropped`, in order.
pub open spec fn dropped_handles(bits: Seq<Bit>, dropped: Seq<bool>, n: nat) -> Seq<u64>
    decreases n,
{
    if n == 0 {
        Seq::empty()
    } else {
        let before = dropped_handles(bits, dropped, (n - 1) as nat);
        if dropped[n - 1] {
            before.push(bits[n - 1].entity)
        } else {
            before
        }
    }
}

/// Whether the handles of `bits` grow from each place to the next, so that
/// no handle occurs twice.
pub open spec fn increasing(bits: Seq<Bit>) -> bool {
    forall|i: int, j: int| 0 <= i < j < bits.len() ==> bits[i].entity < bits[j].entity
}

/// Whether `bit` stands in `bits` at an unmarked place among the first `n`,
/// no earlier than place `j`.
pub open spec fn is_kept_from(bits: Seq<Bit>, dropped: Seq<bool>, n: nat, j: int, bit: Bit) -> bool {
    exists|i: int| j <= i < n && !dropped[i] && #[trigger] bits[i] == bit
}

/// Every bit that is kept stands at a place among the first `n` that is not
/// marked, and the bit kept as number `j` stands no earlier than place `j`.
pub proof fn lemma_kept_origin(bits: Seq<Bit>, dropped: Seq<bool>, n: nat)
    requires
        n <= bits.len(),
        dropped.len() == bits.len(),
    ensures
        kept(bits, dropped, n).len() <= n,
        forall|j: int|
            0 <= j < kept(bits, dropped, n).len() ==> is_kept_from(
                bits,
                dropped,
                n,
                j,
                #[trigger] kept(bits, dropped, n)[j],
            ),
    decreases n,
{
    if n > 0 {
        lemma_kept_origin(bits, dropped, (n - 1) as nat);
        let before = kept(bits, dropped, (n - 1) as nat);
        let now = kept(bits, dropped, n);
        assert forall|j: int| 0 <= j < now.len() implies is_kept_from(
            bits,
            dropped,
            n,
            j,
            #[trigger] now[j],
        ) by {
            if j < before.len() {
                assert(is_kept_from(bits, dropped, (n - 1) as nat, j, before[j]));
                let i = choose|i: int|
                    j <= i < n - 1 && !dropped[i] && #[trigger] bits[i] == before[j];
                assert(j <= i < n && !dropped[i] && bits[i] == now[j]);
            } else {
                assert(j <= n - 1 < n && !dropped[n - 1] && bits[n - 1] == now[j]);
            }
        }
    }
}

/// Keeping some of a list whose handles grow leaves a list whose handles
/// grow, and each handle kept from the first `n` places is smaller than the
/// handle at place `n`.
pub proof fn lemma_kept_increasing(bits: Seq<Bit>, dropped: Seq<bool>, n: nat)
    requires
        n <= bits.len(),
        dropped.len() == bits.len(),
        increasing(bits),
    ensures
        increasing(kept(bits, dropped, n)),
        forall|j: int|
            0 <= j < kept(bits, dropped, n).len() && n < bits.len() ==> (#[trigger] kept(
                bits,
                dropped,
                n,
            )[j]).entity < bits[n as int].entity,
    decreases n,
{
    lemma_kept_origin(bits, dropped, n);
    let now = kept(bits, dropped, n);
    assert forall|j: int| 0 <= j < now.len() && n < bits.len() implies (#[trigger] now[j]).entity
        < bits[n as int].entity by {
        assert(is_kept_from(bits, dropped, n, j, now[j]));
        let i = choose|i: int| j <= i < n && !dropped[i] && #[trigger] bits[i] == now[j];
        assert(bits[i].entity < bits[n as int].entity);
    }
    if n > 0 {
        lemma_kept_increasing(bits, dropped, (n - 1) as nat);
    }
}

/// What is kept weighs no more than the whole, and the mass of a list is
/// never negative.
pub proof fn lemma_kept_total(bits: Seq<Bit>, dropped: Seq<bool>, n: nat)
    requires
        n <= bits.len(),
        dropped.len() == bits.len(),
    ensures
        0 <= total_mass(kept(bits, dropped, n)) <= total_mass(bits.take(n as int)),
    decreases n,
{
    if n > 0 {
        lemma_kept_total(bits, dropped, (n - 1) as nat);
        assert(bits.take(n as int).drop_last() =~= bits.take(n - 1));
        if !dropped[n - 1] {
            lemma_total_mass_push(kept(bits, dropped, (n - 1) as nat), bits[n - 1]);
        }
    }
}

/// The mass of the bits among the first `n` whose place is marked in
/// `dropped`.
pub open spec fn dropped_mass(bits: Seq<Bit>, dropped: Seq<bool>, n: nat) -> int
    decreases n,
{
    if n == 0 {
        0
    } else {
        dropped_mass(bits, dropped, (n - 1) as nat) + if dropped[n - 1] {
            bits[n - 1].mass.0 as int
        } else {
            0
        }
    }
}

/// What is kept and what is dropped weigh together what the whole weighs.
pub proof fn lemma_kept_and_dropped(bits: Seq<Bit>, dropped: Seq<bool>, n: nat)
    requires
        n <= bits.len(),
        dropped.len() == bits.len(),
    ensures
        total_mass(kept(bits, dropped, n)) + dropped_mass(bits, dropped, n) == total_mass(
            bits.take(n as int),
        ),
        0 <= dropped_mass(bits, dropped, n),
    decreases n,
{
    if n > 0 {
        lemma_kept_and_dropped(bits, dropped, (n - 1) as nat);
        assert(bits.take(n as int).drop_last() =~= bits.take(n - 1));
        if !dropped[n - 1] {
            lemma_total_mass_push(kept(bits, dropped, (n - 1) as nat), bits[n - 1]);
        }
    }
}

/// Where no place is marked, everything is kept.
pub proof fn lemma_kept_all(bits: Seq<Bit>, dropped: Seq<bool>, n: nat)
    requires
        n <= bits.len(),
        dropped.len() == bits.len(),
        forall|i: int| 0 <= i < n ==> !dropped[i],
    ensures
        kept(bits, dropped, n) == bits.take(n as int),
        dropped_handles(bits, dropped, n) == Seq::<u64>::empty(),
    decreases n,
{
    if n > 0 {
        lemma_kept_all(bits, dropped, (n - 1) as nat);
        assert(bits.take(n - 1).push(bits[n - 1]) =~= bits.take(n as int));
    } else {
        assert(bits.take(0) =~= Seq::<Bit>::empty());
    }
}

/// Splits `bits` by the marks in `dropped`: the bits at unmarked places, and
/// the handles of the bits at marked places, both in order.
pub fn sift(bits: &Vec<Bit>, dropped: &Vec<bool>) -> (parts: (Vec<Bit>, Vec<u64>))
    requires
        dropped@.len() == bits@.len(),
    ensures
        parts.0@ == kept(bits@, dropped@, bits@.len()),
        parts.1@ == dropped_handles(bits@, dropped@, bits@.len()),
{
    let mut stay: Vec<Bit> = Vec::new();
    let mut gone: Vec<u64> = Vec::new();
    let mut n: usize = 0;
    while n < bits.len()
        invariant
            n <= bits.len(),
            dropped@.len() == bits@.len(),
            stay@ == kept(bits@, dropped@, n as nat),
            gone@ == dropped_handles(bits@, dropped@, n as nat),
        decreases bits.len() - n,
    {
        if dropped[n] {
            gone.push(bits[n].entity);
        } else {
            stay.push(bits[n]);
        }
        n += 1;
    }
    (stay, gone)
}

/// Looks `entity` up in `bits`.
pub fn find(bits: &Vec<Bit>, entity: u64) -> (found: Option<usize>)
    ensures
        match found {
            Some(i) => i < bits@.len() && position(bits@, entity) == Some(i as int),
            None => position(bits@, entity) is None,
        },
{
    let mut i: usize = 0;
    while i < bits.len()
        invariant
            i <= bits.len(),
            forall|j: int| 0 <= j < i ==> handles(bits@)[j] != entity,
        decreases bits.len() - i,
    {
        if bits[i].entity == entity {
            proof {
                lemma_first_index_is(handles(bits@), entity, i as int);
            }
            return Some(i);
        }
        i += 1;
    }
    proof {
        lemma_first_index(handles(bits@), entity);
    }
    None
}

} // verus!
