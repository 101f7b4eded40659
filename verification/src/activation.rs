//! The step from pending to active.
//!
//! Once per tick every pending bit's timer is advanced by the time that has
//! passed. A bit whose timer has run out loses the timer: it is active from
//! then on, its collider is to be switched back on, and it never becomes
//! pending again. Active bits are left as they are.

use vstd::prelude::*;
use crate::bit::dropped_handles;
use crate::bit::increasing;
use crate::bit::total_mass;
use crate::bit::Bit;
use crate::timer::CoalesceTimer;

verus! {

/// Whether a tick of `delta` nanoseconds makes `bit` active.
pub open spec fn activates(bit: Bit, delta: u64) -> bool {
    match bit.timer {
        Some(timer) => timer.after(delta).finished(),
        None => false,
    }
}

/// The bit after a tick of `delta` nanoseconds.
pub open spec fn ticked(bit: Bit, delta: u64) -> Bit {
    Bit {
        entity: bit.entity,
        mass: bit.mass,
        timer: match bit.timer {
            Some(timer) => if timer.after(delta).finished() {
                None
            } else {
                Some(timer.after(delta))
            },
            None => None,
        },
        absorber: bit.absorber,
    }
}

/// The bits after a tick of `delta` nanoseconds, place by place.
pub open spec fn ticked_all(bits: Seq<Bit>, delta: u64) -> Seq<Bit> {
    Seq::new(bits.len(), |i: int| ticked(bits[i], delta))
}

/// For each place, whether a tick of `delta` nanoseconds makes the bit
/// there active.
pub open spec fn activating(bits: Seq<Bit>, delta: u64) -> Seq<bool> {
    Seq::new(bits.len(), |i: int| activates(bits[i], delta))
}

/// The handles of the bits that a tick of `delta` nanoseconds makes active,
/// in order.
pub open spec fn activations(bits: Seq<Bit>, delta: u64) -> Seq<u64> {
    dropped_handles(bits, activating(bits, delta), bits.len())
}

/// Lists with the same masses place by place weigh the same.
pub proof fn lemma_total_mass_by_place(a: Seq<Bit>, b: Seq<Bit>)
    requires
        a.len() == b.len(),
        forall|i: int| 0 <= i < a.len() ==> a[i].mass == b[i].mass,
    ensures
        total_mass(a) == total_mass(b),
    decreases a.len(),
{
    if a.len() > 0 {
        lemma_total_mass_by_place(a.drop_last(), b.drop_last());
    }
}

/// A tick changes neither the mass nor the handle nor the link of any bit,
/// and an active bit stays active.
pub proof fn lemma_ticked_all(bits: Seq<Bit>, delta: u64)
    ensures
        total_mass(ticked_all(bits, delta)) == total_mass(bits),
        increasing(bits) ==> increasing(ticked_all(bits, delta)),
        forall|i: int|
            0 <= i < bits.len() && bits[i].is_active() ==> (#[trigger] ticked_all(
                bits,
                delta,
            )[i]).is_active(),
{
    lemma_total_mass_by_place(ticked_all(bits, delta), bits);
}

impl CoalesceTimer {
    /// Advances the timer of every pending bit by `delta` nanoseconds, makes
    /// the bits whose timer ran out active, and returns their handles.
    pub fn manage_timers(bits: &mut Vec<Bit>, delta: u64) -> (activated: Vec<u64>)
        ensures
            final(bits)@ == ticked_all(old(bits)@, delta),
            activated@ == activations(old(bits)@, delta),
    {
        let ghost before = bits@;
        let mut activated: Vec<u64> = Vec::new();
        let mut n: usize = 0;
        while n < bits.len()
            invariant
                n <= bits.len(),
                bits@.len() == before.len(),
                forall|i: int| 0 <= i < n ==> bits@[i] == ticked(before[i], delta),
                forall|i: int| n <= i < bits@.len() ==> bits@[i] == before[i],
                activated@ == dropped_handles(before, activating(before, delta), n as nat),
            decreases bits.len() - n,
        {
            let bit = bits[n];
            match bit.timer {
                Some(timer) => {
                    let mut timer = timer;
                    let _ = timer.tick(delta);
                    if timer.0 == 0 {
                        bits[n] = Bit {
                            entity: bit.entity,
                            mass: bit.mass,
                            timer: None,
                            absorber: bit.absorber,
                        };
                        activated.push(bit.entity);
                    } else {
                        bits[n] = Bit {
                            entity: bit.entity,
                            mass: bit.mass,
                            timer: Some(timer),
                            absorber: bit.absorber,
                        };
                    }
                },
                None => {},
            }
            n += 1;
        }
        activated
    }
}

} // verus!
