use rng_recover::rand32_simd::Rand32Simd;
use rng_recover::rand32::Rand32Ref;

#[test]
fn test_rand_simd() {
    let mut rng = Rand32Ref::new(0x13371337);
    let state = rng.state();
    let lanes: usize = 8;
    let mut ref_values: Vec<u32> = Vec::new();
    for _ in 0..lanes {
        ref_values.push(rng.rand());
    }
    let mut rng = Rand32Simd::from_state_interval(state, 1, lanes).unwrap();
    let simd_values = rng.rand();
    assert_eq!(ref_values, simd_values);
}

#[test]
fn test_rand_simd_back() {
    let mut rng = Rand32Ref::new(0x13371337);
    let state = rng.state();
    let lanes: usize = 8;
    let mut ref_values: Vec<u32> = Vec::new();
    for _ in 0..lanes {
        ref_values.push(rng.rand());
    }
    let mut rng = Rand32Simd::from_state_interval(state, 1, lanes).unwrap();
    rng.rand();
    rng.rand_back();
    let simd_values = rng.rand();
    assert_eq!(ref_values, simd_values);
}

#[test]
fn test_rand_simd_jump() {
    let mut rng = Rand32Ref::new(0x13371337);
    let state = rng.state();
    let skip: isize = 0x1337;
    for _ in 0..skip {
        rng.rand();
    }
    let lanes: usize = 8;
    let mut ref_values: Vec<u32> = Vec::new();
    for _ in 0..lanes {
        ref_values.push(rng.rand());
    }
    let mut rng = Rand32Simd::from_state_interval(state, 1, lanes).unwrap();
    rng.jump(skip);
    let simd_values = rng.rand();
    assert_eq!(ref_values, simd_values);
}

#[test]
fn test_rand_simd_jump_back() {
    let mut rng = Rand32Ref::new(0x13371337);
    let state = rng.state();
    let lanes: usize = 8;
    let mut ref_values: Vec<u32> = Vec::new();
    for _ in 0..lanes {
        ref_values.push(rng.rand());
    }
    let mut rng = Rand32Simd::from_state_interval(state, 1, lanes).unwrap();
    rng.jump(0x1337);
    rng.jump(-0x1337);
    let simd_values = rng.rand();
    assert_eq!(ref_values, simd_values);
}

#[test]
fn test_rand_simd_interval_two() {
    // with interval 2, lane i stands 2 * i steps ahead of the seed state
    let mut rng = Rand32Ref::new(0xDEAD);
    let state = rng.state();
    let mut ref_values: Vec<u32> = Vec::new();
    for k in 1..=8 {
        let v = rng.rand();
        if k % 2 == 1 {
            ref_values.push(v);
        }
    }
    let mut rng = Rand32Simd::from_state_interval(state, 2, 4).unwrap();
    let simd_values = rng.rand();
    assert_eq!(ref_values, simd_values);
}

#[test]
fn test_rand_simd_jump_back_then_forward() {
    // the round trip is an identity on the emitted sequence in the other
    // order too: backward first, then forward
    let mut rng = Rand32Ref::new(0x13371337);
    let state = rng.state();
    let lanes: usize = 8;
    let mut ref_values: Vec<u32> = Vec::new();
    for _ in 0..lanes {
        ref_values.push(rng.rand());
    }
    let mut rng = Rand32Simd::from_state_interval(state, 1, lanes).unwrap();
    rng.jump(-0x1337);
    rng.jump(0x1337);
    let simd_values = rng.rand();
    assert_eq!(ref_values, simd_values);
}
