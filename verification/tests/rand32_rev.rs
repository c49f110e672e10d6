use rng_recover::rand32_rev::find_rng_timestamp;
use rng_recover::rand32_rev::prev_s1;
use rng_recover::rand32_rev::prev_s2;
use rng_recover::rand32_rev::prev_s3;
use rng_recover::rand32_rev::seed_to_timestamp;
use rng_recover::rand32::Rand32Ref;

fn next_s1(s: u32) -> u32 {
    ((s & 0xFFFFFFFE) << 12) ^ (((s >> 13) ^ (s & 0x0007FFC0)) >> 6)
}
fn next_s2(s: u32) -> u32 {
    ((s & 0xFFFFFFF8) << 4) ^ (((s >> 2) ^ (s & 0x3F800000)) >> 23)
}
fn next_s3(s: u32) -> u32 {
    ((s & 0xFFFFFFF0) << 17) ^ (((s >> 3) ^ (s & 0x1FFFFF00)) >> 8)
}

#[test]
fn test_prev_s1() {
    for ii in 0_u32..1 << 16 {
        let ii: u32 = (ii << 8) | 0x13371337;
        let mask: u32 = (!0) << 1;
        let next = next_s1(ii);
        let prev = prev_s1(next);
        assert_eq!(prev & mask, ii & mask);
    }
}

#[test]
fn test_prev_s2() {
    for ii in 0_u32..1 << 16 {
        let ii: u32 = (ii << 8) | 0x13371337;
        let mask: u32 = (!0) << 3;
        let next = next_s2(ii);
        let prev = prev_s2(next);
        if prev & mask != ii & mask {
            println!("{:032b} {:032b}", prev & mask, ii & mask);
        }
        assert_eq!(prev & mask, ii & mask);
    }
}

#[test]
fn test_prev_s3() {
    for ii in 0_u32..1 << 16 {
        let ii: u32 = (ii << 8) | 0x13371337;
        let mask: u32 = (!0) << 4;
        let next = next_s3(ii);
        let prev = prev_s3(next);
        assert_eq!(prev & mask, ii & mask);
    }
}

#[test]
fn test_find_timestamp() {
    let mut rng = Rand32Ref::new(0x1337);
    for _ in 0..10_000_000 {
        rng.rand();
    }
    let (steps, ts) = find_rng_timestamp(rng.state());
    let expected = rng.rand();
    for t in ts {
        let mut rng = Rand32Ref::new(t);
        for _ in 0..steps {
            rng.rand();
        }
        assert_eq!(rng.rand(), expected);
    }
}

#[test]
fn test_seed_timestamp_round_trip() {
    // tick 0x1337 seeds to 0xac39c888; the timestamp recovery inverts it
    assert_eq!(seed_to_timestamp(0xac39c888), 0x1337);
    assert_eq!(seed_to_timestamp(0u32.wrapping_sub(755606699)), 0);
}

#[test]
fn test_find_timestamp_zero_steps() {
    let rng = Rand32Ref::new(42);
    let (steps, ts) = find_rng_timestamp(rng.state());
    assert_eq!(steps, 0);
    assert!(ts[0] == 42 || ts[1] == 42);
}
