use rng_recover::U56ToSeed;
use rng_recover::rand32::Rand32Ref;

#[test]
fn u56_to_seed_test_example() {
    let u56_solver = U56ToSeed::new().unwrap();
    let val1: u64 = 0x00d269af_632d45f3;
    let val2: u64 = 0x0009ad9b_493e4d35;
    let state = u56_solver.solve(val1, val2);
    let mut rng = Rand32Ref::from_state(state);
    let val1_ref: u64 = (((rng.rand() << 8) as u64) << 24) | rng.rand() as u64;
    assert_eq!(val1, val1_ref);
    let val2_ref: u64 = (((rng.rand() << 8) as u64) << 24) | rng.rand() as u64;
    assert_eq!(val2, val2_ref);
}

#[test]
fn u56_round_trip_from_known_seed() {
    let mut rng = Rand32Ref::seeded(0x0BADF00D, 0x0BADF00D, 0x0BADF00D);
    let val1: u64 = (((rng.rand() << 8) as u64) << 24) | rng.rand() as u64;
    let val2: u64 = (((rng.rand() << 8) as u64) << 24) | rng.rand() as u64;
    let u56_solver = U56ToSeed::new().unwrap();
    let state = u56_solver.solve(val1, val2);
    let mut rng = Rand32Ref::from_state(state);
    let val1_ref: u64 = (((rng.rand() << 8) as u64) << 24) | rng.rand() as u64;
    let val2_ref: u64 = (((rng.rand() << 8) as u64) << 24) | rng.rand() as u64;
    assert_eq!((val1, val2), (val1_ref, val2_ref));
}
