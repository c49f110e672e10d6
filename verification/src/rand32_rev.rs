//! Closed-form single-step inverses of the three registers, and the search
//! that walks a state back to a common seed and its seeding tick.
//!
//! Each forward step discards the forced low bits of its register, so the
//! step-back recovers every bit above them and leaves the low bits zero.

use vstd::prelude::*;

use vstd::arithmetic::div_mod::lemma_add_mod_noop;
use vstd::arithmetic::div_mod::lemma_mod_bound;
use vstd::arithmetic::div_mod::lemma_mod_multiples_vanish;
use vstd::arithmetic::div_mod::lemma_mul_mod_noop_left;
use vstd::arithmetic::div_mod::lemma_small_mod;

use crate::rand32::next_s1_spec;
use crate::rand32::next_s2_spec;
use crate::rand32::next_s3_spec;
use crate::rand32::tick_to_seed;

pub mod simd;

verus! {

/// The step-back of the first register, on the bits above bit 0.
pub open spec fn prev_s1_spec(s: u32) -> u32 {
    let bits_19_01 = s >> 13u32;
    let bits_31_20 = ((bits_19_01 >> 6u32) & 0xFFFu32) ^ (s >> 1u32);
    (bits_31_20 << 20u32) | (bits_19_01 << 1u32)
}

/// The step-back of the second register, on the bits above bit 2.
pub open spec fn prev_s2_spec(s: u32) -> u32 {
    let bits_27_03 = s >> 7u32;
    let bits_29_28 = ((s >> 30u32) ^ (s >> 3u32)) & 0b11u32;
    let bits_31_30 = (s >> 5u32) ^ bits_29_28;
    (bits_31_30 << 30u32) | (bits_29_28 << 28u32) | (bits_27_03 << 3u32)
}

/// One round of the feedback propagation inside the step-back of the third
/// register: the state is (window, recovered bits, current 3-bit chunk).
pub open spec fn prev_s3_round(t: (u32, u32, u32)) -> (u32, u32, u32) {
    let chunk = (t.0 ^ t.2) & 0b111u32;
    (t.0 >> 3u32, (t.1 >> 3u32) | (chunk << 29u32), chunk)
}

/// `n` rounds of the feedback propagation.
pub open spec fn prev_s3_rounds(t: (u32, u32, u32), n: nat) -> (u32, u32, u32)
    decreases n,
{
    if n == 0 {
        t
    } else {
        prev_s3_round(prev_s3_rounds(t, (n - 1) as nat))
    }
}

/// The step-back of the third register, on the bits above bit 3: a 3-bit
/// chunk is propagated through the feedback six times.
pub open spec fn prev_s3_spec(s: u32) -> u32 {
    let bits_14_04 = s >> 21u32;
    let t = prev_s3_rounds((s >> 4u32, 0u32, (bits_14_04 >> 8u32) & 0b111u32), 6);
    (t.1 << 1u32) | (bits_14_04 << 4u32)
}

/// One step back of the whole state.
pub open spec fn prev_state(s: (u32, u32, u32)) -> (u32, u32, u32) {
    (prev_s1_spec(s.0), prev_s2_spec(s.1), prev_s3_spec(s.2))
}

/// The state `n` steps back.
pub open spec fn back_state(s: (u32, u32, u32), n: nat) -> (u32, u32, u32)
    decreases n,
{
    if n == 0 {
        s
    } else {
        prev_state(back_state(s, (n - 1) as nat))
    }
}

/// The three registers agree on every bit that seeding wrote: all bits but
/// the forced ones and those beneath them.  `0xFFEF_EFF8` is
/// `!0x100001 & !0x1007` and `0xFFEF_FFE0` is `!0x100001 & !0x1F`.
pub open spec fn seeds_agree(s: (u32, u32, u32)) -> bool {
    (s.0 ^ s.1) & 0xFFEF_EFF8u32 == 0 && (s.0 ^ s.2) & 0xFFEF_FFE0u32 == 0
}

/// The seed the registers agree on; bit 0 is unknowable after forcing.
pub open spec fn common_seed(s: (u32, u32, u32)) -> u32 {
    (s.0 & s.1) & 0xFFFF_FFFEu32
}

/// The tick that seeds to `s`: `(s + 755606699) * 963516909`, wrapping;
/// 963516909 is the inverse of 1170746341 modulo `2^32`.
pub open spec fn seed_to_timestamp_spec(s: u32) -> u32 {
    ((((s as int) + 755606699) * 963516909) % 0x1_0000_0000) as u32
}

/// Compute the previous value of the first register.
pub fn prev_s1(s: u32) -> (r: u32)
    ensures
        r == prev_s1_spec(s),
{
    let bits_19_01 = s >> 13u32;
    let bits_31_20 = ((bits_19_01 >> 6u32) & 0xFFFu32) ^ (s >> 1u32);
    (bits_31_20 << 20u32) | (bits_19_01 << 1u32)
}

/// Compute the previous value of the second register.
pub fn prev_s2(s: u32) -> (r: u32)
    ensures
        r == prev_s2_spec(s),
{
    let bits_27_03 = s >> 7u32;
    let bits_29_28 = ((s >> 30u32) ^ (s >> 3u32)) & 0b11u32;
    let bits_31_30 = (s >> 5u32) ^ bits_29_28;
    (bits_31_30 << 30u32) | (bits_29_28 << 28u32) | (bits_27_03 << 3u32)
}

/// Compute the previous value of the third register.
pub fn prev_s3(s: u32) -> (r: u32)
    ensures
        r == prev_s3_spec(s),
{
    let bits_14_04 = s >> 21u32;
    let mut window = s >> 4u32;
    let mut bits_31_15: u32 = 0;
    let mut chunk = (bits_14_04 >> 8u32) & 0b111u32;
    let ghost t0 = (window, bits_31_15, chunk);
    let mut i: usize = 0;
    while i < 6
        invariant
            i <= 6,
            (window, bits_31_15, chunk) == prev_s3_rounds(t0, i as nat),
        decreases 6 - i,
    {
        chunk = (window ^ chunk) & 0b111u32;
        window = window >> 3u32;
        bits_31_15 = (bits_31_15 >> 3u32) | (chunk << 29u32);
        i += 1;
    }
    (bits_31_15 << 1u32) | (bits_14_04 << 4u32)
}

/// Stepping back after stepping forward recovers each register on every
/// bit above its forced ones.
pub proof fn lemma_prev_next(s: u32)
    by (bit_vector)
    ensures
        prev_s1_spec(next_s1_spec(s)) & 0xFFFF_FFFEu32 == s & 0xFFFF_FFFEu32,
        prev_s2_spec(next_s2_spec(s)) & 0xFFFF_FFF8u32 == s & 0xFFFF_FFF8u32,
        prev_s3_spec(next_s3_spec(s)) & 0xFFFF_FFF0u32 == s & 0xFFFF_FFF0u32,
{
}

/// The step-back of a register never reads the bits beneath the ones
/// forced at seeding, and leaves the bits beneath them clear.
pub proof fn lemma_prev_spec_bits(x: u32, y: u32)
    by (bit_vector)
    ensures
        prev_s1_spec(x ^ (y & 1u32)) == prev_s1_spec(x),
        prev_s2_spec(x ^ (y & 7u32)) == prev_s2_spec(x),
        prev_s3_spec(x ^ (y & 0xFu32)) == prev_s3_spec(x),
        prev_s1_spec(x) & 0xFFFF_FFFEu32 == prev_s1_spec(x),
        prev_s2_spec(x) & 0xFFFF_FFF8u32 == prev_s2_spec(x),
        prev_s3_spec(x) & 0xFFFF_FFF0u32 == prev_s3_spec(x),
{
}

/// Stepping forward after stepping back recovers each register on every
/// bit above its forced ones: the two single-step maps are mutually
/// inverse there.
pub proof fn lemma_next_prev(s: u32)
    by (bit_vector)
    ensures
        next_s1_spec(prev_s1_spec(s)) & 0xFFFF_FFFEu32 == s & 0xFFFF_FFFEu32,
        next_s2_spec(prev_s2_spec(s)) & 0xFFFF_FFF8u32 == s & 0xFFFF_FFF8u32,
        next_s3_spec(prev_s3_spec(s)) & 0xFFFF_FFF0u32 == s & 0xFFFF_FFF0u32,
{
}

/// Convert a seed to a timestamp that can produce it.
pub fn seed_to_timestamp(s: u32) -> (r: u32)
    ensures
        r == seed_to_timestamp_spec(s),
{
    let sum: u64 = (s as u64) + 755606699u64;
    ((sum * 963516909u64) % 0x1_0000_0000u64) as u32
}

/// Re-seeding from the timestamp of a seed returns that tick: the seed
/// derivation `t * 1170746341 - 755606699` and the timestamp recovery
/// `(s + 755606699) * 963516909` are inverse maps modulo `2^32`.
pub proof fn lemma_tick_seed_round_trip(t: u32)
    ensures
        seed_to_timestamp_spec(tick_to_seed(t)) == t,
{
    let m = 0x1_0000_0000 as int;
    let c1 = 1170746341 as int;
    let c2 = 963516909 as int;
    let k = 3539360597 as int;
    let s = 755606699 as int;
    let a = (t as int) * c1 + k;
    lemma_mod_bound(a, m);
    let av = a % m;
    // (av + s) * c2 taken mod m equals (a + s) * c2 taken mod m
    lemma_mul_mod_noop_left(av + s, c2, m);
    lemma_small_mod(s as nat, m as nat);
    lemma_add_mod_noop(a, s, m);
    assert((av + s) % m == (a + s) % m);
    lemma_mul_mod_noop_left(a + s, c2, m);
    assert(((av + s) * c2) % m == ((a + s) * c2) % m);
    // a + s == t * c1 + m, and c1 * c2 == 262640858 * m + 1
    assert((t as int * 1170746341 + 0x1_0000_0000) * 963516909 == 0x1_0000_0000 * (t as int
        * 262640858 + 963516909) + t as int) by (nonlinear_arith);
    lemma_mod_multiples_vanish(t as int * 262640858 + c2, t as int, m);
    lemma_small_mod(t as nat, m as nat);
    assert(((av + s) * c2) % m == t as int);
}

/// Walk a state backward until the three registers agree on a common seed;
/// return the number of steps taken and the two candidate ticks, for the
/// two possible values of the unknowable seed bit 0.  Counting stops after
/// `usize::MAX` steps without agreement; short of that, the step count is
/// the first at which the walked-back state agrees.
pub fn find_rng_timestamp(state: (u32, u32, u32)) -> (r: (usize, [u32; 2]))
    ensures
        forall|k: nat| k < r.0 ==> !seeds_agree(back_state(state, k)),
        r.0 < usize::MAX ==> {
            &&& seeds_agree(back_state(state, r.0 as nat))
            &&& r.1@[0] == seed_to_timestamp_spec(common_seed(back_state(state, r.0 as nat)))
            &&& r.1@[1] == seed_to_timestamp_spec(common_seed(back_state(state, r.0 as nat))
                | 1u32)
        },
{
    let (mut s1, mut s2, mut s3) = state;
    let mut steps: usize = 0;
    while steps < usize::MAX && ((s1 ^ s2) & 0xFFEF_EFF8u32 != 0 || (s1 ^ s3) & 0xFFEF_FFE0u32
        != 0)
        invariant
            (s1, s2, s3) == back_state(state, steps as nat),
            forall|k: nat| k < steps ==> !seeds_agree(back_state(state, k)),
        decreases usize::MAX - steps,
    {
        proof {
            assert(back_state(state, (steps + 1) as nat) == prev_state(
                back_state(state, steps as nat),
            ));
        }
        steps += 1;
        s1 = prev_s1(s1);
        s2 = prev_s2(s2);
        s3 = prev_s3(s3);
    }
    let seed = (s1 & s2) & 0xFFFF_FFFEu32;
    let ts = [seed_to_timestamp(seed), seed_to_timestamp(seed | 1u32)];
    (steps, ts)
}

} // verus!
