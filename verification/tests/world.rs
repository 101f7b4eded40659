use coalescence::absorber::Absorber;
use coalescence::absorber::AbsorberEntry;
use coalescence::bit::Bit;
use coalescence::mass::BitMass;
use coalescence::mass::CoalesceEvent;
use coalescence::mass::MASS_THRESHOLD;
use coalescence::timer::CoalesceTimer;
use coalescence::timer::COALESCE_DELAY;
use coalescence::world::BitWorld;
use rand::rngs::StdRng;
use rand::SeedableRng;

fn masses(bits: &Vec<Bit>) -> Vec<(u64, u64)> {
    bits.iter().map(|bit| (bit.entity, bit.mass.0)).collect()
}

fn total(world: &BitWorld) -> u64 {
    world.live_bits().iter().map(|bit| bit.mass.0).sum()
}

fn all_pairs(handles: &Vec<u64>) -> Vec<(u64, u64)> {
    let mut pairs = Vec::new();
    for (place, a) in handles.iter().enumerate() {
        for b in &handles[place + 1..] {
            pairs.push((*a, *b));
        }
    }
    pairs
}

fn world_with_bits(count: usize) -> (BitWorld, u64, Vec<u64>) {
    let mut world = BitWorld::new();
    let absorber = world.spawn_absorber(50, true);
    let handles = world.spawn_bits(&vec![0; count]).unwrap();
    (world, absorber, handles)
}

#[test]
fn a_new_world_is_empty() {
    let world = BitWorld::new();
    assert!(world.live_bits().is_empty());
    assert!(world.live_absorbers().is_empty());
    assert_eq!(world.next_handle(), 0);
}

#[test]
fn absorbers_get_handles_in_order() {
    let mut world = BitWorld::new();
    assert_eq!(world.spawn_absorber(50, true), 0);
    assert_eq!(world.spawn_absorber(70, false), 1);
    assert_eq!(
        *world.live_absorbers(),
        vec![
            AbsorberEntry { entity: 0, absorber: Absorber { mass: 50, bits_absorbed: 0 }, enemy: true },
            AbsorberEntry { entity: 1, absorber: Absorber { mass: 70, bits_absorbed: 0 }, enemy: false },
        ]
    );
    assert_eq!(world.next_handle(), 2);
}

#[test]
fn a_removed_absorber_is_gone_and_its_handle_is_not_reused() {
    let mut world = BitWorld::new();
    let first = world.spawn_absorber(50, true);
    let second = world.spawn_absorber(70, false);
    assert!(world.despawn_absorber(first));
    assert!(!world.despawn_absorber(first));
    assert!(!world.despawn_absorber(99));
    assert_eq!(world.live_absorbers().len(), 1);
    assert_eq!(world.live_absorbers()[0].entity, second);
    assert_eq!(world.spawn_absorber(10, true), 2);
}

#[test]
fn bits_stay_pending_until_the_delay_is_over() {
    let (mut world, _, handles) = world_with_bits(2);
    let touching = vec![(handles[0], handles[1])];
    let tick = world.step(COALESCE_DELAY - 1, &touching, &Vec::new());
    assert!(tick.activated.is_empty());
    assert!(tick.despawned.is_empty());
    assert_eq!(world.live_bits().len(), 2);
    assert_eq!(world.live_bits()[0].timer, Some(CoalesceTimer(1)));
    let tick = world.step(1, &Vec::new(), &Vec::new());
    assert_eq!(tick.activated, handles);
    assert!(world.live_bits().iter().all(|bit| bit.active()));
}

#[test]
fn timers_run_before_merges_in_a_tick() {
    let (mut world, _, handles) = world_with_bits(2);
    let touching = vec![(handles[1], handles[0])];
    let tick = world.step(COALESCE_DELAY, &touching, &Vec::new());
    assert_eq!(tick.activated, handles);
    assert_eq!(tick.despawned, vec![handles[0]]);
    assert_eq!(masses(&tick.merged), vec![(handles[1], 2)]);
    assert_eq!(masses(world.live_bits()), vec![(handles[1], 2)]);
}

#[test]
fn merges_run_before_captures_in_a_tick() {
    let (mut world, absorber, handles) = world_with_bits(3);
    world.manage_timers(COALESCE_DELAY);
    // The second bit is merged away, so the absorber cannot capture it; the
    // first is captured with the mass it has just won.
    let touching = vec![(handles[0], handles[1])];
    let absorbing = vec![(absorber, handles[1]), (absorber, handles[0])];
    let tick = world.step(0, &touching, &absorbing);
    assert_eq!(tick.despawned, vec![handles[1], handles[0]]);
    assert_eq!(world.live_absorbers()[0].absorber.bits_absorbed, 2);
    assert_eq!(masses(world.live_bits()), vec![(handles[2], 1)]);
    assert!(tick.events.is_empty());
}

#[test]
fn forty_bits_in_one_place_raise_one_event() {
    let (mut world, _, handles) = world_with_bits(40);
    let touching = all_pairs(&handles);
    let tick = world.step(COALESCE_DELAY, &touching, &Vec::new());
    assert_eq!(tick.merged.len(), 1);
    assert_eq!(tick.merged[0].mass, BitMass(40));
    assert_eq!(tick.merged[0].entity, handles[0]);
    assert_eq!(tick.events, vec![CoalesceEvent(handles[0])]);
    assert_eq!(tick.despawned.len(), 39);
    // The bit that escalated is gone, and nothing is left to raise another
    // event however often the same pairs are reported.
    assert!(world.live_bits().is_empty());
    for _ in 0..3 {
        let tick = world.step(1, &touching, &Vec::new());
        assert!(tick.events.is_empty());
        assert!(tick.merged.is_empty());
    }
}

#[test]
fn a_tick_without_escalation_conserves_mass() {
    let (mut world, absorber, handles) = world_with_bits(20);
    world.manage_timers(COALESCE_DELAY);
    let before = total(&world);
    let touching: Vec<(u64, u64)> = handles.chunks(2).map(|pair| (pair[0], pair[1])).collect();
    let tick = world.step(0, &touching, &Vec::new());
    assert!(tick.events.is_empty());
    assert_eq!(tick.despawned.len(), 10);
    assert_eq!(total(&world), before);
    // Capture takes exactly the mass of the captured bits out.
    let victim = world.live_bits()[3];
    let tick = world.step(0, &Vec::new(), &vec![(absorber, victim.entity)]);
    assert_eq!(tick.despawned, vec![victim.entity]);
    assert_eq!(total(&world), before - victim.mass.0);
    assert_eq!(world.live_absorbers()[0].absorber.bits_absorbed, victim.mass.0);
    // Emission adds one unit for every bit.
    let mut rng = StdRng::seed_from_u64(69);
    world.handle_bit_events(7, &mut rng).unwrap();
    assert_eq!(total(&world), before - victim.mass.0 + 7);
}

#[test]
fn masses_never_shrink_while_bits_live() {
    let (mut world, absorber, handles) = world_with_bits(30);
    world.manage_timers(COALESCE_DELAY);
    let mut seed = 7u64;
    for round in 0..40 {
        let before: Vec<Bit> = world.live_bits().clone();
        let mut touching = Vec::new();
        for _ in 0..6 {
            seed = seed.wrapping_mul(6364136223846793005).wrapping_add(1442695040888963407);
            let a = handles[(seed >> 33) as usize % handles.len()];
            seed = seed.wrapping_mul(6364136223846793005).wrapping_add(1442695040888963407);
            let b = handles[(seed >> 33) as usize % handles.len()];
            touching.push((a, b));
        }
        let absorbing = if round % 7 == 0 { vec![(absorber, handles[round % 30])] } else { vec![] };
        world.step(0, &touching, &absorbing);
        for bit in world.live_bits() {
            let old = before.iter().find(|old| old.entity == bit.entity).unwrap();
            assert!(bit.mass.0 >= old.mass.0);
            assert!(bit.mass.0 < MASS_THRESHOLD);
            assert_eq!(bit.absorber, old.absorber);
        }
        assert!(world.live_absorbers()[0].absorber.bits_absorbed < MASS_THRESHOLD);
    }
}

#[test]
fn an_absorber_at_the_brink_carries_the_rest_over() {
    let (mut world, absorber, handles) = world_with_bits(34);
    world.manage_timers(COALESCE_DELAY);
    // Feed 29 unit bits, then one bit that has grown to 5.
    let feed: Vec<(u64, u64)> = handles[..29].iter().map(|bit| (absorber, *bit)).collect();
    let tick = world.step(0, &Vec::new(), &feed);
    assert!(tick.events.is_empty());
    assert_eq!(world.live_absorbers()[0].absorber.bits_absorbed, 29);
    let grow: Vec<(u64, u64)> = handles[30..].iter().map(|bit| (handles[29], *bit)).collect();
    let tick = world.step(0, &grow, &vec![(absorber, handles[29])]);
    assert_eq!(tick.events, vec![CoalesceEvent(absorber)]);
    assert_eq!(world.live_absorbers()[0].absorber.bits_absorbed, 4);
    assert!(world.live_bits().is_empty());
    // Below the threshold again: the next capture raises nothing.
    let more = world.spawn_bits(&vec![0]).unwrap();
    let tick = world.step(COALESCE_DELAY, &Vec::new(), &vec![(absorber, more[0])]);
    assert!(tick.events.is_empty());
    assert_eq!(world.live_absorbers()[0].absorber.bits_absorbed, 5);
}

#[test]
fn a_quiet_absorber_wraps_without_an_event() {
    let mut world = BitWorld::new();
    let quiet = world.spawn_absorber(50, false);
    let handles = world.spawn_bits(&vec![0; 31]).unwrap();
    world.manage_timers(COALESCE_DELAY);
    let feed: Vec<(u64, u64)> = handles.iter().map(|bit| (quiet, *bit)).collect();
    let tick = world.step(0, &Vec::new(), &feed);
    assert!(tick.events.is_empty());
    assert_eq!(tick.despawned.len(), 31);
    assert_eq!(world.live_absorbers()[0].absorber.bits_absorbed, 1);
}

#[test]
fn two_seeded_runs_come_out_the_same() {
    let mut outcomes = Vec::new();
    for _ in 0..2 {
        let mut world = BitWorld::new();
        let mut absorbers = Vec::new();
        for place in 0..3 {
            absorbers.push(world.spawn_absorber(50, place != 1));
        }
        let mut rng = StdRng::seed_from_u64(69);
        let mut log = Vec::new();
        for round in 0..30u64 {
            if round % 5 == 0 {
                world.handle_bit_events(12, &mut rng).unwrap();
            }
            let alive: Vec<Bit> = world.live_bits().clone();
            let touching: Vec<(u64, u64)> =
                alive.windows(2).map(|pair| (pair[0].entity, pair[1].entity)).collect();
            let absorbing: Vec<(u64, u64)> = alive
                .iter()
                .filter(|bit| (bit.entity + round) % 9 == 0)
                .map(|bit| (bit.absorber.0, bit.entity))
                .collect();
            let tick = world.step(200_000_000, &touching, &absorbing);
            log.push((tick.activated, masses(&tick.merged), tick.despawned, tick.events));
        }
        outcomes.push((log, masses(world.live_bits()), world.live_absorbers().clone()));
    }
    assert_eq!(outcomes[0], outcomes[1]);
    assert!(outcomes[0].0.iter().any(|round| !round.2.is_empty()));
}
