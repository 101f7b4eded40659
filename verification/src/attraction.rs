//! Which bits are pulled toward which absorbers.
//!
//! Every active bit is pulled toward the absorber it was bound to, with a
//! force that grows with the product of the two masses. Pending bits are not
//! pulled, and neither is a bit whose absorber is gone: it is passed over,
//! and the bits after it are pulled as usual. Turning a pull into a force
//! takes the positions of the two bodies, which the physics engine owns, so
//! the engine lists the pulls and leaves the rest to its caller.

use vstd::prelude::*;
use crate::absorber::find_absorber;
use crate::absorber::absorber_position;
use crate::absorber::AbsorberEntry;
use crate::bit::Bit;

verus! {

/// One pull: the bit, the absorber that pulls on it, and the product of the
/// mass of the bit and the mass the absorber pulls with.
#[derive(Clone, Copy, Debug, PartialEq, Eq, Structural)]
pub struct Pull {
    pub bit: u64,
    pub absorber: u64,
    pub mass: u128,
}

/// The pull on the bit at place `i`, if there is one: the bit has to be
/// active, and its absorber has to be among `absorbers`.
pub open spec fn pull_at(bits: Seq<Bit>, absorbers: Seq<AbsorberEntry>, i: int) -> Option<Pull> {
    match absorber_position(absorbers, bits[i].absorber.0) {
        Some(a) => if bits[i].is_active() {
            Some(
                Pull {
                    bit: bits[i].entity,
                    absorber: absorbers[a].entity,
                    mass: (bits[i].mass.0 * absorbers[a].absorber.mass) as u128,
                },
            )
        } else {
            None
        },
        None => None,
    }
}

/// The pulls on the first `n` bits, in order.
pub open spec fn pulls(bits: Seq<Bit>, absorbers: Seq<AbsorberEntry>, n: nat) -> Seq<Pull>
    decreases n,
{
    if n == 0 {
        Seq::empty()
    } else {
        let before = pulls(bits, absorbers, (n - 1) as nat);
        match pull_at(bits, absorbers, n - 1) {
            Some(pull) => before.push(pull),
            None => before,
        }
    }
}

/// The product of two masses of 64 bits fits in 128 bits.
proof fn lemma_product_fits(a: u64, b: u64)
    ensures
        0 <= a * b <= u128::MAX,
{
    assert(0 <= a * b <= 0xffff_ffff_ffff_ffff * 0xffff_ffff_ffff_ffff) by (nonlinear_arith)
        requires
            0 <= a <= 0xffff_ffff_ffff_ffff,
            0 <= b <= 0xffff_ffff_ffff_ffff,
    ;
}

/// Lists the pulls of this tick: one for every active bit whose absorber is
/// still there, in the order of the bits.
pub fn absorption_pulls(bits: &Vec<Bit>, absorbers: &Vec<AbsorberEntry>) -> (listed: Vec<Pull>)
    ensures
        listed@ == pulls(bits@, absorbers@, bits@.len()),
{
    let mut listed: Vec<Pull> = Vec::new();
    let mut n: usize = 0;
    while n < bits.len()
        invariant
            n <= bits.len(),
            listed@ == pulls(bits@, absorbers@, n as nat),
        decreases bits.len() - n,
    {
        let bit = bits[n];
        if bit.active() {
            match find_absorber(absorbers, bit.absorber.0) {
                Some(a) => {
                    let entry = absorbers[a];
                    proof {
                        lemma_product_fits(bit.mass.0, entry.absorber.mass);
                    }
                    let mass: u128 = (bit.mass.0 as u128) * (entry.absorber.mass as u128);
                    listed.push(Pull { bit: bit.entity, absorber: entry.entity, mass });
                },
                None => {},
            }
        }
        n += 1;
    }
    listed
}

} // verus!
