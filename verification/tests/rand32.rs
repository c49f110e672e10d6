use rng_recover::rand32::rng_back_matrix;
use rng_recover::rand32::rng_matrix;
use rng_recover::rand32::Rand32Ref;
use rng_recover::rand32_rev::prev_s1;
use rng_recover::rand32_rev::prev_s2;
use rng_recover::rand32_rev::prev_s3;

#[test]
fn test_new_first_output() {
    // seed for tick 0x1337 is 0x1337 * 1170746341 - 755606699 == 0xac39c888
    let mut rng = Rand32Ref::new(0x1337);
    let s: u32 = 0xac39c888;
    assert_eq!(rng.state(), (s | 0x100000, s | 0x1000, s | 0x10));
    assert_eq!(rng.rand(), 0xce2ca4da);
}

#[test]
fn test_seeded_outputs() {
    let mut rng = Rand32Ref::seeded(0x13371337, 0x13371337, 0x13371337);
    assert_eq!(rng.rand(), 0x64331cf4);
    assert_eq!(rng.rand(), 0xa3132e5a);
    assert_eq!(rng.rand(), 0x25f95d6e);
    assert_eq!(rng.rand(), 0xf024e4c1);
}

#[test]
fn test_from_state_round_trip() {
    let rng = Rand32Ref::seeded(1, 2, 3);
    let copy = Rand32Ref::from_state(rng.state());
    assert_eq!(copy.state(), rng.state());
}

#[test]
fn test_rng_matrix_matches_step() {
    let (m1, m2, m3) = rng_matrix();
    let mut rng = Rand32Ref::seeded(0x13371337, 0x13371337, 0x13371337);
    let (s1, s2, s3) = rng.state();
    let out = m1.vec_mul(s1) ^ m2.vec_mul(s2) ^ m3.vec_mul(s3);
    assert_eq!(rng.rand(), out);
    assert_eq!(out, 0x64331cf4);
}

#[test]
fn test_rng_back_matrix_undoes_step() {
    let (m1, m2, m3) = rng_matrix();
    let (b1, b2, b3) = rng_back_matrix().unwrap();
    let (s1, s2, s3) = (0xDEADBEEFu32, 0xC0FFEE42u32, 0x0BADF00Du32);
    assert_eq!(b1.vec_mul(m1.vec_mul(s1)), s1 & !0x1);
    assert_eq!(b2.vec_mul(m2.vec_mul(s2)), s2 & !0x7);
    assert_eq!(b3.vec_mul(m3.vec_mul(s3)), s3 & !0xF);
}

#[test]
fn test_rng_back_matrix_is_closed_form_step_back() {
    // the back matrices act as the closed-form step-backs on every input,
    // not only on forward-step images
    let (b1, b2, b3) = rng_back_matrix().unwrap();
    for v in [0u32, 1, 0xF, 0xDEADBEEF, 0xC0FFEE42, 0x0BADF00D, 0xFFFF_FFFF, 0x8000_0001] {
        assert_eq!(b1.vec_mul(v), prev_s1(v));
        assert_eq!(b2.vec_mul(v), prev_s2(v));
        assert_eq!(b3.vec_mul(v), prev_s3(v));
    }
}
