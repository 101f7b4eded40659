use coalescence::absorber::absorb;
use coalescence::absorber::find_absorber;
use coalescence::absorber::follow_link;
use coalescence::absorber::Absorber;
use coalescence::absorber::AbsorberEntry;
use coalescence::bit::AbsorbeeOf;
use coalescence::bit::Bit;
use coalescence::error::BitError;
use coalescence::mass::BitMass;
use coalescence::mass::CoalesceEvent;
use coalescence::mass::MASS_THRESHOLD;
use coalescence::timer::CoalesceTimer;

fn bit(entity: u64, mass: u64) -> Bit {
    Bit { entity, mass: BitMass(mass), timer: None, absorber: AbsorbeeOf(100) }
}

fn entry(entity: u64, tally: u64, enemy: bool) -> AbsorberEntry {
    AbsorberEntry { entity, absorber: Absorber { mass: 50, bits_absorbed: tally }, enemy }
}

fn handles(bits: &Vec<Bit>) -> Vec<u64> {
    bits.iter().map(|bit| bit.entity).collect()
}

#[test]
fn a_new_absorber_has_taken_nothing_in() {
    let absorber = Absorber::new(50);
    assert_eq!(absorber, Absorber { mass: 50, bits_absorbed: 0 });
}

#[test]
fn capture_below_the_threshold_adds_up() {
    let mut absorber = Absorber::new(50);
    assert!(!absorber.capture(BitMass(4)));
    assert_eq!(absorber.bits_absorbed, 4);
    assert!(!absorber.capture(BitMass(25)));
    assert_eq!(absorber.bits_absorbed, 29);
    assert_eq!(absorber.mass, 50);
}

#[test]
fn capture_onto_the_threshold_leaves_nothing() {
    let mut absorber = Absorber { mass: 50, bits_absorbed: 29 };
    assert!(absorber.capture(BitMass(1)));
    assert_eq!(absorber.bits_absorbed, 0);
}

#[test]
fn capture_over_the_threshold_carries_the_rest() {
    for k in 0..200u64 {
        let mut absorber = Absorber { mass: 50, bits_absorbed: MASS_THRESHOLD - 1 };
        assert!(absorber.capture(BitMass(k + 1)));
        assert_eq!(absorber.bits_absorbed, k);
    }
}

#[test]
fn capture_of_nothing_changes_nothing() {
    let mut absorber = Absorber { mass: 50, bits_absorbed: 7 };
    assert!(!absorber.capture(BitMass(0)));
    assert_eq!(absorber.bits_absorbed, 7);
}

#[test]
fn a_touching_bit_is_captured_and_gone() {
    let mut absorbers = vec![entry(100, 3, true)];
    let bits = vec![bit(1, 2), bit(2, 5)];
    let absorbed = absorb(&mut absorbers, &bits, &vec![(100, 2)]);
    assert_eq!(absorbers[0].absorber.bits_absorbed, 8);
    assert_eq!(handles(&absorbed.bits), vec![1]);
    assert_eq!(absorbed.despawned, vec![2]);
    assert!(absorbed.events.is_empty());
}

#[test]
fn an_enemy_absorber_raises_one_event_when_it_crosses() {
    let mut absorbers = vec![entry(100, 29, true)];
    let bits = vec![bit(1, 5)];
    let absorbed = absorb(&mut absorbers, &bits, &vec![(100, 1)]);
    assert_eq!(absorbers[0].absorber.bits_absorbed, 4);
    assert_eq!(absorbed.events, vec![CoalesceEvent(100)]);
    assert_eq!(absorbed.despawned, vec![1]);
    assert!(absorbed.bits.is_empty());
}

#[test]
fn another_absorber_crosses_in_silence() {
    let mut absorbers = vec![entry(100, 29, false)];
    let bits = vec![bit(1, 5)];
    let absorbed = absorb(&mut absorbers, &bits, &vec![(100, 1)]);
    assert_eq!(absorbers[0].absorber.bits_absorbed, 4);
    assert!(absorbed.events.is_empty());
    assert_eq!(absorbed.despawned, vec![1]);
}

#[test]
fn a_bit_that_touches_two_absorbers_is_captured_once() {
    let mut absorbers = vec![entry(100, 0, true), entry(101, 0, true)];
    let bits = vec![bit(1, 6)];
    let absorbed = absorb(&mut absorbers, &bits, &vec![(101, 1), (100, 1), (101, 1)]);
    assert_eq!(absorbers[0].absorber.bits_absorbed, 0);
    assert_eq!(absorbers[1].absorber.bits_absorbed, 6);
    assert_eq!(absorbed.despawned, vec![1]);
}

#[test]
fn pending_bits_are_captured_too() {
    let mut absorbers = vec![entry(100, 0, true)];
    let mut waiting = bit(1, 1);
    waiting.timer = Some(CoalesceTimer(10));
    let absorbed = absorb(&mut absorbers, &vec![waiting], &vec![(100, 1)]);
    assert_eq!(absorbers[0].absorber.bits_absorbed, 1);
    assert_eq!(absorbed.despawned, vec![1]);
}

#[test]
fn unknown_handles_are_ignored() {
    let mut absorbers = vec![entry(100, 3, true)];
    let bits = vec![bit(1, 2)];
    let absorbed = absorb(&mut absorbers, &bits, &vec![(1, 100), (100, 7), (7, 1), (1, 1)]);
    assert_eq!(absorbers, vec![entry(100, 3, true)]);
    assert_eq!(handles(&absorbed.bits), vec![1]);
    assert!(absorbed.despawned.is_empty());
    assert!(absorbed.events.is_empty());
}

#[test]
fn several_crossings_in_one_round_raise_several_events() {
    let mut absorbers = vec![entry(100, 20, true), entry(101, 0, false)];
    let bits: Vec<Bit> = (1..=6).map(|entity| bit(entity, 20)).collect();
    let contacts = vec![(100, 1), (101, 2), (100, 3), (100, 4), (101, 5), (100, 6)];
    let absorbed = absorb(&mut absorbers, &bits, &contacts);
    // 20 +20 = 40 -> 10 (event); +20 = 30 -> 0 (event); +20 = 20; +20 = 40 -> 10 (event)
    assert_eq!(absorbers[0].absorber.bits_absorbed, 10);
    // 0 +20 = 20; +20 = 40 -> 10, and no event.
    assert_eq!(absorbers[1].absorber.bits_absorbed, 10);
    assert_eq!(
        absorbed.events,
        vec![CoalesceEvent(100), CoalesceEvent(100), CoalesceEvent(100)]
    );
    assert_eq!(absorbed.despawned, vec![1, 2, 3, 4, 5, 6]);
    assert!(absorbed.bits.is_empty());
}

#[test]
fn capture_accounts_for_every_unit_of_mass() {
    for seed in 0..100u64 {
        let mut absorbers: Vec<AbsorberEntry> =
            (0..3).map(|a| entry(100 + a, (seed + 11 * a) % 30, a % 2 == 0)).collect();
        let bits: Vec<Bit> = (0..15u64).map(|b| bit(b, 1 + (b * 5 + seed) % 29)).collect();
        let contacts: Vec<(u64, u64)> =
            (0..20u64).map(|c| (100 + (c + seed) % 4, (c * 7 + seed) % 17)).collect();
        let tallies_before: u64 = absorbers.iter().map(|e| e.absorber.bits_absorbed).sum();
        let mass_before: u64 = bits.iter().map(|b| b.mass.0).sum();
        let enemies_before: Vec<bool> = absorbers.iter().map(|e| e.enemy).collect();
        let absorbed = absorb(&mut absorbers, &bits, &contacts);
        let tallies_after: u64 = absorbers.iter().map(|e| e.absorber.bits_absorbed).sum();
        let mass_after: u64 = absorbed.bits.iter().map(|b| b.mass.0).sum();
        let moved = mass_before - mass_after;
        let crossed = tallies_before + moved - tallies_after;
        assert_eq!(crossed % MASS_THRESHOLD, 0);
        assert!(absorbed.events.len() as u64 <= crossed / MASS_THRESHOLD);
        assert_eq!(absorbed.bits.len() + absorbed.despawned.len(), bits.len());
        for entry in &absorbers {
            assert!(entry.absorber.bits_absorbed < MASS_THRESHOLD);
        }
        assert_eq!(absorbers.iter().map(|e| e.enemy).collect::<Vec<bool>>(), enemies_before);
    }
}

#[test]
fn an_absorber_is_found_by_its_handle() {
    let absorbers = vec![entry(100, 0, true), entry(101, 0, false)];
    assert_eq!(find_absorber(&absorbers, 101), Some(1));
    assert_eq!(find_absorber(&absorbers, 100), Some(0));
    assert_eq!(find_absorber(&absorbers, 5), None);
    assert_eq!(find_absorber(&Vec::new(), 5), None);
}

#[test]
fn a_link_leads_to_its_absorber() {
    let absorbers = vec![entry(100, 4, true), entry(101, 9, false)];
    assert_eq!(follow_link(&absorbers, AbsorbeeOf(101)), Ok(entry(101, 9, false)));
}

#[test]
fn a_link_to_a_removed_absorber_dangles() {
    let absorbers = vec![entry(100, 4, true)];
    assert_eq!(follow_link(&absorbers, AbsorbeeOf(101)), Err(BitError::DanglingLink));
    assert_eq!(follow_link(&Vec::new(), AbsorbeeOf(100)), Err(BitError::DanglingLink));
}
