use rng_recover::mod24::produce_mod24;
use rng_recover::mod24::Error;
use rng_recover::Mod24Solver;
use rng_recover::rand32::Rand32Ref;

#[test]
fn mod24_test_example() {
    let mod24_solver = Mod24Solver::new().unwrap();
    let s1_mask: u32 = !0x100001;
    let s2_mask: u32 = !0x1007;
    let s3_mask: u32 = !0x1f;
    for seed in 0u32..0xffff {
        let seed: u32 = (seed << 8) ^ 0x13371337;
        let mut rng = Rand32Ref::seeded(seed, seed, seed);
        let mod24s = produce_mod24(&mut rng, 40);
        let (s1, s2, s3) =
            mod24_solver.solve(&mod24s).expect("should find a solution");
        assert_eq!(s1 & s1_mask, seed & s1_mask);
        assert_eq!(s2 & s2_mask, seed & s2_mask);
        assert_eq!(s3 & s3_mask, seed & s3_mask);
    }
}

#[test]
fn test_brute() {
    let mod24_solver = Mod24Solver::new().unwrap();
    let seed: u32 = 0x13371337;
    let s1_mask: u32 = !0x100001;
    let s2_mask: u32 = !0x1007;
    let s3_mask: u32 = !0x1f;
    for len in 22usize..30 {
        let mut rng = Rand32Ref::seeded(seed, seed, seed);
        let mod24s = produce_mod24(&mut rng, len);
        let (s1, s2, s3) =
            mod24_solver.solve(&mod24s).expect("should find a solution");
        assert_eq!(s1 & s1_mask, seed & s1_mask);
        assert_eq!(s2 & s2_mask, seed & s2_mask);
        assert_eq!(s3 & s3_mask, seed & s3_mask);
    }
}

#[test]
fn test_sequence_too_short() {
    let mod24_solver = Mod24Solver::new().unwrap();
    let samples = vec![0u32; 19];
    assert!(matches!(mod24_solver.solve(&samples), Err(Error::SequenceTooShort)));
}

#[test]
fn test_validation_failed() {
    let mod24_solver = Mod24Solver::new().unwrap();
    let mut rng = Rand32Ref::seeded(0x13371337, 0x13371337, 0x13371337);
    let mut samples = produce_mod24(&mut rng, 30);
    let last = samples.pop().unwrap();
    samples.push((last + 1) % 24);
    assert!(matches!(mod24_solver.solve(&samples), Err(Error::ValidationFailed)));
}

#[test]
fn test_not_found() {
    let mod24_solver = Mod24Solver::new().unwrap();
    let mut rng = Rand32Ref::seeded(0x13371337, 0x13371337, 0x13371337);
    let mut samples = produce_mod24(&mut rng, 29);
    let last = samples.pop().unwrap();
    samples.push((last + 1) % 24);
    assert!(matches!(mod24_solver.solve(&samples), Err(Error::NotFound)));
}

#[test]
fn test_produce_mod24_values() {
    let mut rng = Rand32Ref::seeded(0x13371337, 0x13371337, 0x13371337);
    let samples = produce_mod24(&mut rng, 10);
    assert_eq!(samples, vec![12, 18, 6, 1, 16, 0, 20, 23, 16, 18]);
}
