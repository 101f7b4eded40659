use coalescence::bit::AbsorbeeOf;
use coalescence::bit::Bit;
use coalescence::coalesce::apply_mass;
use coalescence::coalesce::coalesce;
use coalescence::coalesce::retire;
use coalescence::mass::BitMass;
use coalescence::mass::CoalesceEvent;
use coalescence::timer::CoalesceTimer;

fn active(entity: u64, mass: u64) -> Bit {
    Bit { entity, mass: BitMass(mass), timer: None, absorber: AbsorbeeOf(1000) }
}

fn pending(entity: u64, mass: u64) -> Bit {
    Bit { entity, mass: BitMass(mass), timer: Some(CoalesceTimer(1)), absorber: AbsorbeeOf(1000) }
}

fn total_mass_of(bits: &Vec<Bit>) -> u64 {
    bits.iter().map(|bit| bit.mass.0).sum()
}

fn masses(bits: &Vec<Bit>) -> Vec<(u64, u64)> {
    bits.iter().map(|bit| (bit.entity, bit.mass.0)).collect()
}

#[test]
fn equal_masses_first_named_wins() {
    let bits = vec![active(1, 3), active(2, 3)];
    let merges = coalesce(&bits, &vec![(2, 1)]);
    assert_eq!(merges.has_coalesced, vec![true, false]);
    assert_eq!(merges.temp_mass, vec![0, 3]);
    let merged = apply_mass(&bits, &merges);
    assert_eq!(masses(&merged.bits), vec![(2, 6)]);
    assert_eq!(merged.despawned, vec![1]);
    assert!(merged.events.is_empty());
}

#[test]
fn equal_masses_other_order_other_winner() {
    let bits = vec![active(1, 3), active(2, 3)];
    let merged = apply_mass(&bits, &coalesce(&bits, &vec![(1, 2)]));
    assert_eq!(masses(&merged.bits), vec![(1, 6)]);
    assert_eq!(merged.despawned, vec![2]);
}

#[test]
fn heavier_bit_wins_wherever_it_is_named() {
    let bits = vec![active(1, 2), active(2, 5)];
    let first = apply_mass(&bits, &coalesce(&bits, &vec![(1, 2)]));
    let second = apply_mass(&bits, &coalesce(&bits, &vec![(2, 1)]));
    assert_eq!(masses(&first.bits), vec![(2, 7)]);
    assert_eq!(masses(&second.bits), vec![(2, 7)]);
    assert_eq!(first.despawned, vec![1]);
    assert_eq!(second.despawned, vec![1]);
}

#[test]
fn no_contacts_no_change() {
    let bits = vec![active(1, 2), pending(2, 1), active(3, 7)];
    let merges = coalesce(&bits, &vec![]);
    assert_eq!(merges.temp_mass, vec![0, 0, 0]);
    assert_eq!(merges.has_coalesced, vec![false, false, false]);
    let merged = apply_mass(&bits, &merges);
    assert_eq!(masses(&merged.bits), vec![(1, 2), (2, 1), (3, 7)]);
    assert!(merged.despawned.is_empty());
    assert!(merged.events.is_empty());
}

#[test]
fn no_bits_no_outcome() {
    let bits: Vec<Bit> = vec![];
    let merged = apply_mass(&bits, &coalesce(&bits, &vec![(1, 2)]));
    assert!(merged.bits.is_empty());
    assert!(merged.despawned.is_empty());
    assert!(merged.events.is_empty());
}

#[test]
fn pending_bits_do_not_merge() {
    let bits = vec![active(1, 2), pending(2, 1), pending(3, 1)];
    let merged = apply_mass(&bits, &coalesce(&bits, &vec![(1, 2), (2, 1), (2, 3)]));
    assert_eq!(masses(&merged.bits), vec![(1, 2), (2, 1), (3, 1)]);
    assert!(merged.despawned.is_empty());
}

#[test]
fn merging_keeps_timer_and_link() {
    let mut winner = active(1, 4);
    winner.absorber = AbsorbeeOf(77);
    let bits = vec![winner, active(2, 1)];
    let merged = apply_mass(&bits, &coalesce(&bits, &vec![(1, 2)]));
    assert_eq!(merged.bits.len(), 1);
    assert_eq!(merged.bits[0].absorber, AbsorbeeOf(77));
    assert_eq!(merged.bits[0].timer, None);
}

#[test]
fn unknown_handles_and_self_pairs_are_ignored() {
    let bits = vec![active(1, 2), active(2, 1)];
    let merged = apply_mass(&bits, &coalesce(&bits, &vec![(1, 1), (1, 9), (9, 2), (8, 9)]));
    assert_eq!(masses(&merged.bits), vec![(1, 2), (2, 1)]);
    assert!(merged.despawned.is_empty());
}

#[test]
fn a_loser_takes_no_part_in_later_pairs() {
    // 2 touches both 1 and 3. It loses to 1 first, so 3 gets nothing of it.
    let bits = vec![active(1, 5), active(2, 1), active(3, 5)];
    let merged = apply_mass(&bits, &coalesce(&bits, &vec![(1, 2), (3, 2)]));
    assert_eq!(masses(&merged.bits), vec![(1, 6), (3, 5)]);
    assert_eq!(merged.despawned, vec![2]);
    assert_eq!(total_mass_of(&merged.bits), total_mass_of(&bits));
}

#[test]
fn a_loser_cannot_win_afterwards() {
    // 1 loses to 2, and may not go on to swallow 3.
    let bits = vec![active(1, 2), active(2, 5), active(3, 1)];
    let merged = apply_mass(&bits, &coalesce(&bits, &vec![(1, 2), (1, 3)]));
    assert_eq!(masses(&merged.bits), vec![(2, 7), (3, 1)]);
    assert_eq!(merged.despawned, vec![1]);
}

#[test]
fn a_winner_that_later_loses_passes_its_credit_on() {
    let bits = vec![active(1, 2), active(2, 1), active(3, 5)];
    let merges = coalesce(&bits, &vec![(1, 2), (1, 3)]);
    assert_eq!(merges.has_coalesced, vec![true, true, false]);
    assert_eq!(merges.temp_mass, vec![0, 0, 3]);
    let merged = apply_mass(&bits, &merges);
    assert_eq!(masses(&merged.bits), vec![(3, 8)]);
    assert_eq!(merged.despawned, vec![1, 2]);
    assert_eq!(total_mass_of(&merged.bits), 8);
}

#[test]
fn masses_are_compared_as_the_round_began() {
    // 1 has won 2 and would weigh 4, yet against 3 it still counts as 2.
    let bits = vec![active(1, 2), active(2, 2), active(3, 3)];
    let merged = apply_mass(&bits, &coalesce(&bits, &vec![(1, 2), (1, 3)]));
    assert_eq!(masses(&merged.bits), vec![(3, 7)]);
    assert_eq!(merged.despawned, vec![1, 2]);
}

#[test]
fn one_winner_may_win_many_times() {
    let bits = vec![active(1, 1), active(2, 1), active(3, 1), active(4, 1)];
    let merged = apply_mass(&bits, &coalesce(&bits, &vec![(1, 2), (1, 3), (1, 4)]));
    assert_eq!(masses(&merged.bits), vec![(1, 4)]);
    assert_eq!(merged.despawned, vec![2, 3, 4]);
}

#[test]
fn crossing_the_threshold_raises_one_event() {
    let bits = vec![active(1, 29), active(2, 1)];
    let merged = apply_mass(&bits, &coalesce(&bits, &vec![(1, 2)]));
    assert_eq!(masses(&merged.bits), vec![(1, 30)]);
    assert_eq!(merged.events, vec![CoalesceEvent(1)]);
}

#[test]
fn staying_below_the_threshold_raises_none() {
    let bits = vec![active(1, 28), active(2, 1)];
    let merged = apply_mass(&bits, &coalesce(&bits, &vec![(1, 2)]));
    assert_eq!(masses(&merged.bits), vec![(1, 29)]);
    assert!(merged.events.is_empty());
}

#[test]
fn a_bit_already_over_the_threshold_does_not_cross_it() {
    let bits = vec![active(1, 35), active(2, 1), active(3, 31)];
    let merged = apply_mass(&bits, &coalesce(&bits, &vec![(1, 2)]));
    assert_eq!(masses(&merged.bits), vec![(1, 36), (3, 31)]);
    assert!(merged.events.is_empty());
}

#[test]
fn the_event_names_the_winner() {
    let bits = vec![active(1, 20), active(2, 25)];
    let merged = apply_mass(&bits, &coalesce(&bits, &vec![(1, 2)]));
    assert_eq!(masses(&merged.bits), vec![(2, 45)]);
    assert_eq!(merged.events, vec![CoalesceEvent(2)]);
    assert_eq!(merged.despawned, vec![1]);
}

#[test]
fn forty_unit_bits_in_one_place_become_one() {
    let bits: Vec<Bit> = (0..40).map(|entity| active(entity, 1)).collect();
    let mut contacts = Vec::new();
    for a in 0..40u64 {
        for b in (a + 1)..40u64 {
            contacts.push((a, b));
        }
    }
    let merged = apply_mass(&bits, &coalesce(&bits, &contacts));
    assert_eq!(merged.bits.len(), 1);
    assert_eq!(merged.bits[0].mass, BitMass(40));
    assert_eq!(merged.bits[0].entity, 0);
    assert_eq!(merged.despawned.len(), 39);
    assert_eq!(merged.events, vec![CoalesceEvent(0)]);
    // Another round over what is left changes nothing and raises nothing.
    let again = apply_mass(&merged.bits, &coalesce(&merged.bits, &contacts));
    assert_eq!(masses(&again.bits), vec![(0, 40)]);
    assert!(again.events.is_empty());
    assert!(again.despawned.is_empty());
}

#[test]
fn forty_unit_bits_touching_in_a_chain_converge() {
    // Each bit touches only its neighbour; rounds are run until nothing
    // changes any more.
    let mut bits: Vec<Bit> = (0..40).map(|entity| active(entity, 1)).collect();
    let contacts: Vec<(u64, u64)> = (0..39u64).map(|entity| (entity, entity + 1)).collect();
    let mut events = Vec::new();
    let mut closest: Vec<(u64, u64)> = contacts.clone();
    loop {
        let merged = apply_mass(&bits, &coalesce(&bits, &closest));
        events.extend(merged.events.iter().copied());
        let done = merged.despawned.is_empty();
        bits = merged.bits;
        if done {
            break;
        }
        closest = bits.windows(2).map(|pair| (pair[0].entity, pair[1].entity)).collect();
    }
    assert_eq!(bits.len(), 1);
    assert_eq!(bits[0].mass, BitMass(40));
    assert_eq!(events.len(), 1);
}

#[test]
fn retire_takes_out_what_reached_the_threshold() {
    let bits = vec![active(1, 29), active(2, 30), active(3, 1), active(4, 40)];
    let (stay, gone) = retire(&bits);
    assert_eq!(masses(&stay), vec![(1, 29), (3, 1)]);
    assert_eq!(gone, vec![2, 4]);
}

#[test]
fn retire_of_nothing_is_nothing() {
    let (stay, gone) = retire(&Vec::new());
    assert!(stay.is_empty());
    assert!(gone.is_empty());
}

fn scrambled_contacts(seed: u64, handles: u64, pairs: usize) -> Vec<(u64, u64)> {
    let mut state = seed;
    let mut next = move || {
        state = state.wrapping_mul(6364136223846793005).wrapping_add(1442695040888963407);
        (state >> 33) % handles
    };
    (0..pairs).map(|_| (next(), next())).collect()
}

#[test]
fn merging_conserves_mass_whatever_the_pairs() {
    for seed in 0..200u64 {
        let bits: Vec<Bit> = (0..12u64)
            .map(|entity| {
                if (entity + seed) % 5 == 0 {
                    pending(entity, 1 + (entity * 7 + seed) % 6)
                } else {
                    active(entity, 1 + (entity * 7 + seed) % 6)
                }
            })
            .collect();
        let contacts = scrambled_contacts(seed, 14, 3 + (seed as usize % 20));
        let merged = apply_mass(&bits, &coalesce(&bits, &contacts));
        assert_eq!(total_mass_of(&merged.bits), total_mass_of(&bits));
        assert_eq!(merged.bits.len() + merged.despawned.len(), bits.len());
        for bit in &merged.bits {
            let before = bits.iter().find(|old| old.entity == bit.entity).unwrap();
            assert!(bit.mass.0 >= before.mass.0);
            assert_eq!(bit.timer, before.timer);
        }
    }
}

#[test]
fn the_same_round_twice_gives_the_same_outcome() {
    for seed in 0..50u64 {
        let bits: Vec<Bit> = (0..10u64).map(|entity| active(entity, 1 + entity % 4)).collect();
        let contacts = scrambled_contacts(seed, 10, 15);
        let first = apply_mass(&bits, &coalesce(&bits, &contacts));
        let second = apply_mass(&bits, &coalesce(&bits, &contacts));
        assert_eq!(masses(&first.bits), masses(&second.bits));
        assert_eq!(first.despawned, second.despawned);
        assert_eq!(first.events, second.events);
    }
}

#[test]
fn the_first_of_two_equal_handles_is_the_one_found() {
    let bits = vec![active(1, 2), active(1, 9), active(2, 1)];
    let merged = apply_mass(&bits, &coalesce(&bits, &vec![(1, 2)]));
    assert_eq!(masses(&merged.bits), vec![(1, 3), (1, 9)]);
}
