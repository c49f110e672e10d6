//! Reference implementation of the three-register XOR-shift generator, and
//! the 32x32 bit-matrices of one forward step and one backward step per
//! register.

use vstd::prelude::*;

use crate::matrix::Error;
use crate::matrix32::BitMatrix32;
use crate::matrix32::and_rows32;
use crate::matrix32::bit32;
use crate::matrix32::eye32;
use crate::matrix32::lemma_lowmask_step32;
use crate::matrix32::lemma_vec_mul_and_rows32;
use crate::matrix32::lemma_vec_mul_eye32;
use crate::matrix32::lemma_vec_mul_low_eye32;
use crate::matrix32::lemma_vec_mul_low_zero32;
use crate::matrix32::lemma_vec_mul_unit32;
use crate::matrix32::lemma_vec_mul_assoc32;
use crate::matrix32::lemma_vec_mul_xor_rows32;
use crate::matrix32::lemma_vec_mul_xor_vec32;
use crate::matrix32::lemma_vm_prefix_zero32;
use crate::matrix32::lemma_inverse_cancels32;
use crate::matrix32::lemma_xor_mini32;
use crate::rand32_rev::prev_s1_spec;
use crate::rand32_rev::prev_s2_spec;
use crate::rand32_rev::prev_s3_spec;
use crate::rand32_rev::lemma_prev_next;
use crate::rand32_rev::lemma_prev_spec_bits;
use crate::matrix32::lowmask32;
use crate::matrix32::mat_mul32;
use crate::matrix32::shl_rows32;
use crate::matrix32::shr_rows32;
use crate::matrix32::vec_mul32;
use crate::matrix32::vm_prefix32;
use crate::matrix32::xor_rows32;

verus! {

/// One forward step of the first register.
pub open spec fn next_s1_spec(s: u32) -> u32 {
    ((s & 0xFFFF_FFFEu32) << 12u32) ^ (((s & 0x7FFC0u32) ^ (s >> 13u32)) >> 6u32)
}

/// One forward step of the second register.
pub open spec fn next_s2_spec(s: u32) -> u32 {
    ((s & 0xFFFF_FFF8u32) << 4u32) ^ (((s >> 2u32) ^ (s & 0x3F80_0000u32)) >> 23u32)
}

/// One forward step of the third register.
pub open spec fn next_s3_spec(s: u32) -> u32 {
    ((s & 0xFFFF_FFF0u32) << 17u32) ^ (((s >> 3u32) ^ (s & 0x1FFF_FF00u32)) >> 8u32)
}

/// One forward step of the whole state.
pub open spec fn step_state(s: (u32, u32, u32)) -> (u32, u32, u32) {
    (next_s1_spec(s.0), next_s2_spec(s.1), next_s3_spec(s.2))
}

/// The output emitted on reaching state `s`.
pub open spec fn output_of(s: (u32, u32, u32)) -> u32 {
    s.0 ^ s.1 ^ s.2
}

/// The state after `n` forward steps.
pub open spec fn state_after(s: (u32, u32, u32), n: nat) -> (u32, u32, u32)
    decreases n,
{
    if n == 0 {
        s
    } else {
        step_state(state_after(s, (n - 1) as nat))
    }
}

/// The `n`-th output, counting from 1, produced from state `s`.
pub open spec fn output_at(s: (u32, u32, u32), n: nat) -> u32 {
    output_of(state_after(s, n))
}

/// The forced bits: seeding always sets bit 20 of the first register,
/// bit 12 of the second and bit 4 of the third.
pub open spec fn seeded_state(seed1: u32, seed2: u32, seed3: u32) -> (u32, u32, u32) {
    (seed1 | 0x10_0000u32, seed2 | 0x1000u32, seed3 | 0x10u32)
}

/// The 32-bit seed derived from a tick: `tick * 1170746341 - 755606699`,
/// wrapping; `3539360597` is `2^32 - 755606699`.
pub open spec fn tick_to_seed(t: u32) -> u32 {
    (((t as int) * 1170746341 + 3539360597) % 0x1_0000_0000) as u32
}

/// Row `i` of the step matrix of register `k` is the image of `1 << i`.
pub open spec fn m1_rows() -> Seq<u32> {
    Seq::new(32, |i: int| next_s1_spec(1u32 << (i as u32)))
}

pub open spec fn m2_rows() -> Seq<u32> {
    Seq::new(32, |i: int| next_s2_spec(1u32 << (i as u32)))
}

pub open spec fn m3_rows() -> Seq<u32> {
    Seq::new(32, |i: int| next_s3_spec(1u32 << (i as u32)))
}

/// The rank-augmented step matrix of the first register: the step matrix
/// with an identity on the forced low bit XORed in to restore full rank.
pub open spec fn aug1_rows() -> Seq<u32> {
    xor_rows32(m1_rows(), and_rows32(eye32(), lowmask32(1)))
}

/// The rank-augmented step matrix of the second register.
pub open spec fn aug2_rows() -> Seq<u32> {
    xor_rows32(m2_rows(), and_rows32(eye32(), lowmask32(3)))
}

/// The rank-augmented step matrix of the third register.
pub open spec fn aug3_rows() -> Seq<u32> {
    xor_rows32(m3_rows(), and_rows32(eye32(), lowmask32(4)))
}

/// Reference scalar generator: three 32-bit registers stepped in lockstep.
pub struct Rand32Ref {
    seed1: u32,
    seed2: u32,
    seed3: u32,
}

impl View for Rand32Ref {
    type V = (u32, u32, u32);

    closed spec fn view(&self) -> (u32, u32, u32) {
        (self.seed1, self.seed2, self.seed3)
    }
}

impl Rand32Ref {
    /// Seed all three registers from a tick value.
    pub fn new(tick_count: u32) -> (r: Self)
        ensures
            r@ == seeded_state(tick_to_seed(tick_count), tick_to_seed(tick_count), tick_to_seed(tick_count)),
    {
        let prod: u64 = (tick_count as u64) * 1170746341u64;
        let seed: u32 = ((prod + 3539360597u64) % 0x1_0000_0000u64) as u32;
        Self::seeded(seed, seed, seed)
    }

    /// Set the three registers, forcing the always-set bits.
    pub fn seeded(seed1: u32, seed2: u32, seed3: u32) -> (r: Self)
        ensures
            r@ == seeded_state(seed1, seed2, seed3),
    {
        Rand32Ref {
            seed1: seed1 | 0x10_0000u32,
            seed2: seed2 | 0x1000u32,
            seed3: seed3 | 0x10u32,
        }
    }

    /// The current state.
    pub fn state(&self) -> (r: (u32, u32, u32))
        ensures
            r == self@,
    {
        (self.seed1, self.seed2, self.seed3)
    }

    /// Adopt a state as it stands, forcing nothing.
    pub fn from_state(state: (u32, u32, u32)) -> (r: Self)
        ensures
            r@ == state,
    {
        Rand32Ref { seed1: state.0, seed2: state.1, seed3: state.2 }
    }

    /// Advance every register one step and return the new XOR of the three.
    pub fn rand(&mut self) -> (r: u32)
        ensures
            final(self)@ == step_state(old(self)@),
            r == output_of(final(self)@),
            r == output_at(old(self)@, 1),
    {
        self.seed1 = ((self.seed1 & 0xFFFF_FFFEu32) << 12u32) ^ (((self.seed1 & 0x7FFC0u32) ^ (
        self.seed1 >> 13u32)) >> 6u32);
        self.seed2 = ((self.seed2 & 0xFFFF_FFF8u32) << 4u32) ^ (((self.seed2 >> 2u32) ^ (self.seed2
            & 0x3F80_0000u32)) >> 23u32);
        self.seed3 = ((self.seed3 & 0xFFFF_FFF0u32) << 17u32) ^ (((self.seed3 >> 3u32) ^ (
        self.seed3 & 0x1FFF_FF00u32)) >> 8u32);
        proof {
            assert(state_after(old(self)@, 0) == old(self)@);
            assert(state_after(old(self)@, 1) == step_state(old(self)@));
        }
        self.seed1 ^ self.seed2 ^ self.seed3
    }
}

/// The three forward step matrices: `step of register k` equals `s * M_k`.
pub fn rng_matrix() -> (r: (BitMatrix32, BitMatrix32, BitMatrix32))
    ensures
        r.0.wf() && r.0@ == m1_rows(),
        r.1.wf() && r.1@ == m2_rows(),
        r.2.wf() && r.2@ == m3_rows(),
{
    let eye = BitMatrix32::eye();
    let m1 = eye.and(0xFFFF_FFFEu32).shift_left(12).xor(
        &eye.and(0x7FFC0u32).xor(&eye.shift_right(13)).shift_right(6),
    );
    let m2 = eye.and(0xFFFF_FFF8u32).shift_left(4).xor(
        &eye.shift_right(2).xor(&eye.and(0x3F80_0000u32)).shift_right(23),
    );
    let m3 = eye.and(0xFFFF_FFF0u32).shift_left(17).xor(
        &eye.shift_right(3).xor(&eye.and(0x1FFF_FF00u32)).shift_right(8),
    );
    proof {
        assert(m1@ =~= m1_rows());
        assert(m2@ =~= m2_rows());
        assert(m3@ =~= m3_rows());
    }
    (m1, m2, m3)
}

/// Small constant facts: low masks, shifted all-ones masks, and the step
/// images of the unit vectors at the forced-bit positions, which are zero.
proof fn lemma_small_consts32()
    by (bit_vector)
    ensures
        lowmask32(0) == 0u32,
        lowmask32(1) == 0x1u32,
        lowmask32(3) == 0x7u32,
        lowmask32(4) == 0xFu32,
        0xffff_ffffu32 << 1u32 == 0xFFFF_FFFEu32,
        0xffff_ffffu32 << 3u32 == 0xFFFF_FFF8u32,
        0xffff_ffffu32 << 4u32 == 0xFFFF_FFF0u32,
        next_s1_spec(1u32 << 0u32) == 0u32,
        next_s2_spec(1u32 << 0u32) == 0u32,
        next_s2_spec(1u32 << 1u32) == 0u32,
        next_s2_spec(1u32 << 2u32) == 0u32,
        next_s3_spec(1u32 << 0u32) == 0u32,
        next_s3_spec(1u32 << 1u32) == 0u32,
        next_s3_spec(1u32 << 2u32) == 0u32,
        next_s3_spec(1u32 << 3u32) == 0u32,
{
}

/// Each forward step is GF(2)-linear in the register.
proof fn lemma_next_linear(x: u32, y: u32)
    by (bit_vector)
    ensures
        next_s1_spec(x ^ y) == next_s1_spec(x) ^ next_s1_spec(y),
        next_s2_spec(x ^ y) == next_s2_spec(x) ^ next_s2_spec(y),
        next_s3_spec(x ^ y) == next_s3_spec(x) ^ next_s3_spec(y),
        next_s1_spec(0u32) == 0u32,
        next_s2_spec(0u32) == 0u32,
        next_s3_spec(0u32) == 0u32,
{
}

/// A forward step never reads the bits below the ones forced at seeding.
pub proof fn lemma_next_ignores_low(x: u32)
    by (bit_vector)
    ensures
        next_s1_spec(x & 0xFFFF_FFFEu32) == next_s1_spec(x),
        next_s2_spec(x & 0xFFFF_FFF8u32) == next_s2_spec(x),
        next_s3_spec(x & 0xFFFF_FFF0u32) == next_s3_spec(x),
{
}

/// Action of the first step matrix on the low `n` bits of `s`.
proof fn lemma_m1_action_prefix(s: u32, n: int)
    requires
        0 <= n <= 32,
    ensures
        vm_prefix32(s, m1_rows(), n) == next_s1_spec(s & lowmask32(n as u32)),
    decreases n,
{
    lemma_xor_mini32();
    if n == 0 {
        lemma_small_consts32();
        lemma_next_linear(0u32, 0u32);
        assert(s & lowmask32(0) == 0u32);
    } else {
        lemma_m1_action_prefix(s, n - 1);
        lemma_lowmask_step32(s, n as u32);
        let nm1 = (n - 1) as u32;
        let a = s & lowmask32(nm1);
        assert(m1_rows()[n - 1] == next_s1_spec(1u32 << nm1));
        if bit32(s, nm1) {
            lemma_next_linear(a, 1u32 << nm1);
            assert(s & lowmask32(n as u32) == a ^ (1u32 << nm1));
            assert(vm_prefix32(s, m1_rows(), n) == vm_prefix32(s, m1_rows(), n - 1) ^ m1_rows()[n
                - 1]);
        } else {
            assert(s & lowmask32(n as u32) == a ^ 0u32);
            assert(vm_prefix32(s, m1_rows(), n) == vm_prefix32(s, m1_rows(), n - 1) ^ 0u32);
        }
    }
}

proof fn lemma_m2_action_prefix(s: u32, n: int)
    requires
        0 <= n <= 32,
    ensures
        vm_prefix32(s, m2_rows(), n) == next_s2_spec(s & lowmask32(n as u32)),
    decreases n,
{
    lemma_xor_mini32();
    if n == 0 {
        lemma_small_consts32();
        lemma_next_linear(0u32, 0u32);
        assert(s & lowmask32(0) == 0u32);
    } else {
        lemma_m2_action_prefix(s, n - 1);
        lemma_lowmask_step32(s, n as u32);
        let nm1 = (n - 1) as u32;
        let a = s & lowmask32(nm1);
        assert(m2_rows()[n - 1] == next_s2_spec(1u32 << nm1));
        if bit32(s, nm1) {
            lemma_next_linear(a, 1u32 << nm1);
            assert(s & lowmask32(n as u32) == a ^ (1u32 << nm1));
            assert(vm_prefix32(s, m2_rows(), n) == vm_prefix32(s, m2_rows(), n - 1) ^ m2_rows()[n
                - 1]);
        } else {
            assert(s & lowmask32(n as u32) == a ^ 0u32);
            assert(vm_prefix32(s, m2_rows(), n) == vm_prefix32(s, m2_rows(), n - 1) ^ 0u32);
        }
    }
}

proof fn lemma_m3_action_prefix(s: u32, n: int)
    requires
        0 <= n <= 32,
    ensures
        vm_prefix32(s, m3_rows(), n) == next_s3_spec(s & lowmask32(n as u32)),
    decreases n,
{
    lemma_xor_mini32();
    if n == 0 {
        lemma_small_consts32();
        lemma_next_linear(0u32, 0u32);
        assert(s & lowmask32(0) == 0u32);
    } else {
        lemma_m3_action_prefix(s, n - 1);
        lemma_lowmask_step32(s, n as u32);
        let nm1 = (n - 1) as u32;
        let a = s & lowmask32(nm1);
        assert(m3_rows()[n - 1] == next_s3_spec(1u32 << nm1));
        if bit32(s, nm1) {
            lemma_next_linear(a, 1u32 << nm1);
            assert(s & lowmask32(n as u32) == a ^ (1u32 << nm1));
            assert(vm_prefix32(s, m3_rows(), n) == vm_prefix32(s, m3_rows(), n - 1) ^ m3_rows()[n
                - 1]);
        } else {
            assert(s & lowmask32(n as u32) == a ^ 0u32);
            assert(vm_prefix32(s, m3_rows(), n) == vm_prefix32(s, m3_rows(), n - 1) ^ 0u32);
        }
    }
}

/// The step matrices express the forward step: `s * M_k == next_k(s)`.
pub proof fn lemma_step_matrix_action(s: u32)
    ensures
        vec_mul32(s, m1_rows()) == next_s1_spec(s),
        vec_mul32(s, m2_rows()) == next_s2_spec(s),
        vec_mul32(s, m3_rows()) == next_s3_spec(s),
{
    lemma_xor_mini32();
    lemma_m1_action_prefix(s, 32);
    lemma_m2_action_prefix(s, 32);
    lemma_m3_action_prefix(s, 32);
    assert(s & lowmask32(32) == s);
}

/// One generator step equals the XOR of the three matrix actions: the
/// output of `rand()` is `(s1 * M1) ^ (s2 * M2) ^ (s3 * M3)`.
pub proof fn lemma_rand_is_matrix_action(s: (u32, u32, u32))
    ensures
        output_at(s, 1) == vec_mul32(s.0, m1_rows()) ^ vec_mul32(s.1, m2_rows()) ^ vec_mul32(
            s.2,
            m3_rows(),
        ),
{
    lemma_step_matrix_action(s.0);
    lemma_step_matrix_action(s.1);
    lemma_step_matrix_action(s.2);
    assert(state_after(s, 0) == s);
    assert(state_after(s, 1) == step_state(s));
}

/// The three backward step matrices.  For each register the forward matrix
/// is singular, the forced low bits being lost; an identity on those bits
/// is XORed in to borrow rank, the sum is inverted, and the low columns of
/// the inverse are cleared again.  `Ok` carries matrices `B_k` that act as
/// the closed-form step-backs on every input, so `next_k(s) * B_k == s` on
/// every bit above the forced ones, the low rows are zero, and the forced
/// bits of the input do not matter.  `Err` is possible only with one of
/// the rank-augmented matrices proved singular, which none is.
pub fn rng_back_matrix() -> (r: Result<(BitMatrix32, BitMatrix32, BitMatrix32), Error>)
    ensures
        match r {
            Ok(bs) => {
                &&& bs.0.wf() && bs.1.wf() && bs.2.wf()
                &&& forall|v: u32| #[trigger] vec_mul32(v, bs.0@) == prev_s1_spec(v)
                &&& forall|v: u32| #[trigger] vec_mul32(v, bs.1@) == prev_s2_spec(v)
                &&& forall|v: u32| #[trigger] vec_mul32(v, bs.2@) == prev_s3_spec(v)
                &&& forall|s: u32| #[trigger] vec_mul32(next_s1_spec(s), bs.0@) == s
                    & 0xFFFF_FFFEu32
                &&& forall|s: u32| #[trigger] vec_mul32(next_s2_spec(s), bs.1@) == s
                    & 0xFFFF_FFF8u32
                &&& forall|s: u32| #[trigger] vec_mul32(next_s3_spec(s), bs.2@) == s
                    & 0xFFFF_FFF0u32
                &&& forall|v: u32| #[trigger] vec_mul32(v & 0xFFFF_FFFEu32, bs.0@) == vec_mul32(
                    v,
                    bs.0@,
                )
                &&& forall|v: u32| #[trigger] vec_mul32(v & 0xFFFF_FFF8u32, bs.1@) == vec_mul32(
                    v,
                    bs.1@,
                )
                &&& forall|v: u32| #[trigger] vec_mul32(v & 0xFFFF_FFF0u32, bs.2@) == vec_mul32(
                    v,
                    bs.2@,
                )
                &&& forall|j: int| 0 <= j < 1 ==> bs.0@[j] == 0u32
                &&& forall|j: int| 0 <= j < 3 ==> bs.1@[j] == 0u32
                &&& forall|j: int| 0 <= j < 4 ==> bs.2@[j] == 0u32
            },
            Err(_) => (forall|b: Seq<u32>| b.len() == 32 ==> mat_mul32(aug1_rows(), b) != eye32())
                || (forall|b: Seq<u32>| b.len() == 32 ==> mat_mul32(aug2_rows(), b) != eye32())
                || (forall|b: Seq<u32>| b.len() == 32 ==> mat_mul32(aug3_rows(), b) != eye32()),
        },
{
    let (m1, m2, m3) = rng_matrix();
    let eye = BitMatrix32::eye();
    let a1 = m1.xor(&eye.and(0x1u32));
    let a2 = m2.xor(&eye.and(0x7u32));
    let a3 = m3.xor(&eye.and(0xFu32));
    proof {
        lemma_small_consts32();
        assert(a1@ =~= aug1_rows());
        assert(a2@ =~= aug2_rows());
        assert(a3@ =~= aug3_rows());
    }
    let i1 = match a1.inv() {
        Ok(m) => m,
        Err(e) => {
            return Err(e);
        },
    };
    let i2 = match a2.inv() {
        Ok(m) => m,
        Err(e) => {
            return Err(e);
        },
    };
    let i3 = match a3.inv() {
        Ok(m) => m,
        Err(e) => {
            return Err(e);
        },
    };
    let b1 = i1.shift_right(1).shift_left(1);
    let b2 = i2.shift_right(3).shift_left(3);
    let b3 = i3.shift_right(4).shift_left(4);
    proof {
        lemma_back_matrix(m1@, a1@, i1@, b1@, 1u32);
        lemma_back_matrix(m2@, a2@, i2@, b2@, 3u32);
        lemma_back_matrix(m3@, a3@, i3@, b3@, 4u32);
        assert forall|s: u32| #[trigger] vec_mul32(next_s1_spec(s), b1@) == s
            & 0xFFFF_FFFEu32 by {
            lemma_step_matrix_action(s);
        }
        assert forall|s: u32| #[trigger] vec_mul32(next_s2_spec(s), b2@) == s
            & 0xFFFF_FFF8u32 by {
            lemma_step_matrix_action(s);
        }
        assert forall|s: u32| #[trigger] vec_mul32(next_s3_spec(s), b3@) == s
            & 0xFFFF_FFF0u32 by {
            lemma_step_matrix_action(s);
        }
        assert forall|v: u32| #[trigger] vec_mul32(v & 0xFFFF_FFFEu32, b1@) == vec_mul32(
            v,
            b1@,
        ) by {
            lemma_vec_mul_low_zero32(v, b1@, 1u32);
        }
        assert forall|v: u32| #[trigger] vec_mul32(v & 0xFFFF_FFF8u32, b2@) == vec_mul32(
            v,
            b2@,
        ) by {
            lemma_vec_mul_low_zero32(v, b2@, 3u32);
        }
        assert forall|v: u32| #[trigger] vec_mul32(v & 0xFFFF_FFF0u32, b3@) == vec_mul32(
            v,
            b3@,
        ) by {
            lemma_vec_mul_low_zero32(v, b3@, 4u32);
        }
        // each backward matrix acts as the closed-form step-back on every
        // input, not only on forward-step images: any v is the augmented
        // image of w = v * I_k, and both sides agree on that image
        assert forall|v: u32| #[trigger] vec_mul32(v, b1@) == prev_s1_spec(v) by {
            lemma_xor_mini32();
            let w = vec_mul32(v, i1@);
            lemma_inverse_cancels32(v, i1@, a1@);
            lemma_vec_mul_xor_rows32(w, m1@, and_rows32(eye32(), lowmask32(1)));
            lemma_vec_mul_and_rows32(w, eye32(), lowmask32(1));
            lemma_vec_mul_eye32(w);
            lemma_step_matrix_action(w);
            assert(v == next_s1_spec(w) ^ (w & 1u32));
            lemma_vec_mul_xor_vec32(next_s1_spec(w), w & 1u32, b1@);
            lemma_vec_mul_low_zero32(w & 1u32, b1@, 1u32);
            lemma_vm_prefix_zero32(b1@, 32);
            lemma_back_mask_bits32(0u32, 0u32, 1u32, w);
            assert(vec_mul32(v, b1@) == (w & 0xFFFF_FFFEu32) ^ 0u32);
            lemma_prev_spec_bits(next_s1_spec(w), w);
            lemma_prev_next(w);
        }
        assert forall|v: u32| #[trigger] vec_mul32(v, b2@) == prev_s2_spec(v) by {
            lemma_xor_mini32();
            let w = vec_mul32(v, i2@);
            lemma_inverse_cancels32(v, i2@, a2@);
            lemma_vec_mul_xor_rows32(w, m2@, and_rows32(eye32(), lowmask32(3)));
            lemma_vec_mul_and_rows32(w, eye32(), lowmask32(3));
            lemma_vec_mul_eye32(w);
            lemma_step_matrix_action(w);
            assert(v == next_s2_spec(w) ^ (w & 7u32));
            lemma_vec_mul_xor_vec32(next_s2_spec(w), w & 7u32, b2@);
            lemma_vec_mul_low_zero32(w & 7u32, b2@, 3u32);
            lemma_vm_prefix_zero32(b2@, 32);
            lemma_back_mask_bits32(0u32, 0u32, 3u32, w);
            assert(vec_mul32(v, b2@) == (w & 0xFFFF_FFF8u32) ^ 0u32);
            lemma_prev_spec_bits(next_s2_spec(w), w);
            lemma_prev_next(w);
        }
        assert forall|v: u32| #[trigger] vec_mul32(v, b3@) == prev_s3_spec(v) by {
            lemma_xor_mini32();
            let w = vec_mul32(v, i3@);
            lemma_inverse_cancels32(v, i3@, a3@);
            lemma_vec_mul_xor_rows32(w, m3@, and_rows32(eye32(), lowmask32(4)));
            lemma_vec_mul_and_rows32(w, eye32(), lowmask32(4));
            lemma_vec_mul_eye32(w);
            lemma_step_matrix_action(w);
            assert(v == next_s3_spec(w) ^ (w & 0xFu32));
            lemma_vec_mul_xor_vec32(next_s3_spec(w), w & 0xFu32, b3@);
            lemma_vec_mul_low_zero32(w & 0xFu32, b3@, 4u32);
            lemma_vm_prefix_zero32(b3@, 32);
            lemma_back_mask_bits32(0u32, 0u32, 4u32, w);
            assert(vec_mul32(v, b3@) == (w & 0xFFFF_FFF0u32) ^ 0u32);
            lemma_prev_spec_bits(next_s3_spec(w), w);
            lemma_prev_next(w);
        }
    }
    Ok((b1, b2, b3))
}

/// Mask bookkeeping behind `lemma_back_matrix` and the step-back equality:
/// how low masks, unit bits and cleared columns interact for k in 1..=4.
proof fn lemma_back_mask_bits32(r: u32, ju: u32, k: u32, s: u32)
    by (bit_vector)
    requires
        1 <= k <= 4,
    ensures
        (r >> k) << k == r & (0xffff_ffffu32 << k),
        ju < k ==> (1u32 << ju) & lowmask32(k) == 1u32 << ju,
        ju < k ==> (1u32 << ju) & (0xffff_ffffu32 << k) == 0u32,
        (s & lowmask32(k)) < (1u32 << k),
        (1u32 << k) >= 1u32,
        (s ^ (s & lowmask32(k))) & (0xffff_ffffu32 << k) == s & (0xffff_ffffu32 << k),
        (s & lowmask32(k)) & (0xffff_ffffu32 << k) == 0u32,
{
}

/// What the certified inverse of a rank-augmented step matrix gives: the
/// masked inverse undoes the matrix action up to the forced bits, its low
/// rows are zero, and its low rows before masking are unit rows.
proof fn lemma_back_matrix(m: Seq<u32>, a: Seq<u32>, i: Seq<u32>, b: Seq<u32>, k: u32)
    requires
        m.len() == 32,
        a.len() == 32,
        i.len() == 32,
        b.len() == 32,
        1 <= k <= 4,
        a == xor_rows32(m, and_rows32(eye32(), (lowmask32(k)))),
        mat_mul32(a, i) == eye32(),
        mat_mul32(i, a) == eye32(),
        b == shl_rows32(shr_rows32(i, k), k),
        forall|j: int| 0 <= j < k ==> m[j] == 0u32,
    ensures
        forall|j: int| 0 <= j < k ==> b[j] == 0u32,
        forall|s: u32| #[trigger] vec_mul32(vec_mul32(s, m), b) == s & (0xffff_ffffu32 << k),
{
    lemma_xor_mini32();
    // the masked inverse is the inverse with its low column bits cleared
    assert forall|j: int| 0 <= j < 32 implies b[j] == i[j] & (0xffff_ffffu32 << k) by {
        let r = i[j];
        lemma_back_mask_bits32(r, 0u32, k, 0u32);
    }
    assert(b =~= and_rows32(i, 0xffff_ffffu32 << k));
    // the low rows of the inverse are the identity's rows
    assert forall|j: int| 0 <= j < k implies i[j] == (1u32 << (j as u32)) by {
        let ju = j as u32;
        assert(a[j] == m[j] ^ ((1u32 << ju) & lowmask32(k)));
        lemma_back_mask_bits32(0u32, ju, k, 0u32);
        assert(a[j] == 0u32 ^ (1u32 << ju));
        lemma_vec_mul_unit32(ju, i);
        // row j of a * i == eye: vec_mul(a[j], i) == 1 << j
        assert(vec_mul32(a[j], i) == eye32()[j]);
    }
    // hence the low rows of the masked inverse are zero
    assert forall|j: int| 0 <= j < k implies b[j] == 0u32 by {
        let ju = j as u32;
        lemma_back_mask_bits32(0u32, ju, k, 0u32);
    }
    // the action: s * m * b == (s * m * i) & mask == (s & mask)
    assert forall|s: u32| #[trigger] vec_mul32(vec_mul32(s, m), b) == s & (0xffff_ffffu32
        << k) by {
        lemma_vec_mul_and_rows32(vec_mul32(s, m), i, 0xffff_ffffu32 << k);
        // s * m == s * a ^ s * (eye & lowmask)
        assert(m =~= xor_rows32(a, and_rows32(eye32(), lowmask32(k))));
        lemma_vec_mul_xor_rows32(s, a, and_rows32(eye32(), lowmask32(k)));
        lemma_vec_mul_and_rows32(s, eye32(), lowmask32(k));
        lemma_vec_mul_eye32(s);
        // so s * m == (s * a) ^ (s & lowmask(k))
        let low = s & lowmask32(k);
        lemma_vec_mul_xor_vec32(vec_mul32(s, a), low, i);
        // (s * a) * i == s by the two-sided inverse
        lemma_vec_mul_assoc32(s, a, i);
        lemma_vec_mul_eye32(s);
        // low * i == low, because the low rows of i are unit rows
        lemma_back_mask_bits32(0u32, 0u32, k, s);
        lemma_vec_mul_low_eye32(low, i, k);
        // so s * m * i == s ^ low, and masking kills low
        lemma_back_mask_bits32(0u32, 0u32, k, s);
    }
}

} // verus!
