//! Multi-lane generator: N lanes of the scalar generator stepped together,
//! with memoized jump matrices for moving every lane forward or backward
//! by many steps at once.

use vstd::prelude::*;

use crate::matrix::Error as MatError;
use crate::matrix32::BitMatrix32;
use crate::matrix32::eye32;
use crate::matrix32::lemma_mat_mul_eye32;
use crate::matrix32::lemma_vec_mul_assoc32;
use crate::matrix32::lemma_vec_mul_eye32;
use crate::matrix32::lemma_vec_mul_low_zero32;
use crate::matrix32::lemma_vec_mul_unit32;
use crate::matrix32::lemma_vm_prefix_zero32;
use crate::matrix32::mat_mul32;
use crate::matrix32::mat_pow32;
use crate::matrix32::vec_mul32;
use crate::rand32::aug1_rows;
use crate::rand32::aug2_rows;
use crate::rand32::aug3_rows;
use crate::rand32::lemma_next_ignores_low;
use crate::rand32::lemma_step_matrix_action;
use crate::rand32::m1_rows;
use crate::rand32::m2_rows;
use crate::rand32::m3_rows;
use crate::rand32::next_s1_spec;
use crate::rand32::next_s2_spec;
use crate::rand32::next_s3_spec;
use crate::rand32::output_at;
use crate::rand32::rng_back_matrix;
use crate::rand32::rng_matrix;
use crate::rand32::state_after;
use crate::rand32_rev::lemma_next_prev;
use crate::rand32_rev::prev_s1_spec;
use crate::rand32_rev::prev_s2_spec;
use crate::rand32_rev::prev_s3_spec;
use crate::rand32_rev::simd::prev_s1;
use crate::rand32_rev::simd::prev_s2;
use crate::rand32_rev::simd::prev_s3;

verus! {

/// Lane `i`: the start value pushed `i` times through the step matrix.
pub open spec fn lane_iter(s: u32, step: Seq<u32>, i: nat) -> u32
    decreases i,
{
    if i == 0 {
        s
    } else {
        vec_mul32(lane_iter(s, step, (i - 1) as nat), step)
    }
}

/// N lanes of the generator.  The backward step matrices are built once at
/// construction; the delta matrices memoize the last jump.
pub struct Rand32Simd {
    last_jump: isize,
    d1: BitMatrix32,
    d2: BitMatrix32,
    d3: BitMatrix32,
    b1: BitMatrix32,
    b2: BitMatrix32,
    b3: BitMatrix32,
    seed1: Vec<u32>,
    seed2: Vec<u32>,
    seed3: Vec<u32>,
}

impl Rand32Simd {
    /// The three per-lane register vectors.
    pub closed spec fn lanes(&self) -> (Seq<u32>, Seq<u32>, Seq<u32>) {
        (self.seed1@, self.seed2@, self.seed3@)
    }

    /// The rows of the three backward step matrices.
    pub closed spec fn back_rows(&self) -> (Seq<u32>, Seq<u32>, Seq<u32>) {
        (self.b1@, self.b2@, self.b3@)
    }

    /// The rows of the three memoized jump matrices.
    pub closed spec fn delta_rows(&self) -> (Seq<u32>, Seq<u32>, Seq<u32>) {
        (self.d1@, self.d2@, self.d3@)
    }

    /// The memoized jump size.
    pub closed spec fn jump_len(&self) -> isize {
        self.last_jump
    }

    pub open spec fn lane_count(&self) -> nat {
        self.lanes().0.len()
    }

    /// Well-formed: equally many lanes per register; the backward matrices
    /// act as the closed-form step-backs on every input, so they undo one
    /// forward step above the forced bits and ignore the bits beneath
    /// them; the delta matrices are the powers of the memoized jump.
    pub open spec fn wf(&self) -> bool {
        let (l1, l2, l3) = self.lanes();
        let (b1, b2, b3) = self.back_rows();
        let (d1, d2, d3) = self.delta_rows();
        &&& l2.len() == l1.len() && l3.len() == l1.len()
        &&& b1.len() == 32 && b2.len() == 32 && b3.len() == 32
        &&& d1.len() == 32 && d2.len() == 32 && d3.len() == 32
        &&& forall|v: u32| #[trigger] vec_mul32(v, b1) == prev_s1_spec(v)
        &&& forall|v: u32| #[trigger] vec_mul32(v, b2) == prev_s2_spec(v)
        &&& forall|v: u32| #[trigger] vec_mul32(v, b3) == prev_s3_spec(v)
        &&& forall|s: u32| #[trigger] vec_mul32(next_s1_spec(s), b1) == s & 0xFFFF_FFFEu32
        &&& forall|s: u32| #[trigger] vec_mul32(next_s2_spec(s), b2) == s & 0xFFFF_FFF8u32
        &&& forall|s: u32| #[trigger] vec_mul32(next_s3_spec(s), b3) == s & 0xFFFF_FFF0u32
        &&& forall|j: int| 0 <= j < 1 ==> b1[j] == 0u32
        &&& forall|j: int| 0 <= j < 3 ==> b2[j] == 0u32
        &&& forall|j: int| 0 <= j < 4 ==> b3[j] == 0u32
        &&& if self.jump_len() >= 0 {
            &&& d1 == mat_pow32(m1_rows(), self.jump_len() as nat)
            &&& d2 == mat_pow32(m2_rows(), self.jump_len() as nat)
            &&& d3 == mat_pow32(m3_rows(), self.jump_len() as nat)
        } else {
            &&& d1 == mat_pow32(b1, (-(self.jump_len() as int)) as nat)
            &&& d2 == mat_pow32(b2, (-(self.jump_len() as int)) as nat)
            &&& d3 == mat_pow32(b3, (-(self.jump_len() as int)) as nat)
        }
    }

    /// Seed `lanes` lanes so that lane `i` stands `interval * i` steps
    /// ahead of `state`.  `Err` is possible only with one of the
    /// rank-augmented step matrices proved singular, which none is.
    pub fn from_state_interval(state: (u32, u32, u32), interval: usize, lanes: usize) -> (r: Result<
        Self,
        MatError,
    >)
        ensures
            match r {
                Ok(rng) => {
                    &&& rng.wf()
                    &&& rng.jump_len() == 0
                    &&& rng.lane_count() == lanes
                    &&& forall|i: int|
                        0 <= i < lanes ==> rng.lanes().0[i] == lane_iter(
                            state.0,
                            mat_pow32(m1_rows(), interval as nat),
                            i as nat,
                        )
                    &&& forall|i: int|
                        0 <= i < lanes ==> rng.lanes().1[i] == lane_iter(
                            state.1,
                            mat_pow32(m2_rows(), interval as nat),
                            i as nat,
                        )
                    &&& forall|i: int|
                        0 <= i < lanes ==> rng.lanes().2[i] == lane_iter(
                            state.2,
                            mat_pow32(m3_rows(), interval as nat),
                            i as nat,
                        )
                },
                Err(_) => (forall|b: Seq<u32>|
                    b.len() == 32 ==> mat_mul32(aug1_rows(), b) != eye32()) || (forall|b: Seq<u32>|
                    b.len() == 32 ==> mat_mul32(aug2_rows(), b) != eye32()) || (forall|b: Seq<u32>|
                    b.len() == 32 ==> mat_mul32(aug3_rows(), b) != eye32()),
            },
    {
        let (b1, b2, b3) = match rng_back_matrix() {
            Ok(bs) => bs,
            Err(e) => {
                return Err(e);
            },
        };
        let (m1, m2, m3) = rng_matrix();
        let p1 = m1.pow(interval);
        let p2 = m2.pow(interval);
        let p3 = m3.pow(interval);
        let seed1 = seed_lanes(state.0, &p1, lanes);
        let seed2 = seed_lanes(state.1, &p2, lanes);
        let seed3 = seed_lanes(state.2, &p3, lanes);
        let rng = Rand32Simd {
            last_jump: 0,
            d1: BitMatrix32::eye(),
            d2: BitMatrix32::eye(),
            d3: BitMatrix32::eye(),
            b1,
            b2,
            b3,
            seed1,
            seed2,
            seed3,
        };
        proof {
            assert(mat_pow32(m1_rows(), 0) == eye32());
            assert(mat_pow32(m2_rows(), 0) == eye32());
            assert(mat_pow32(m3_rows(), 0) == eye32());
        }
        Ok(rng)
    }

    /// Advance every lane by `steps` steps, negative for backward; the
    /// power matrix of the last jump size is reused until the size
    /// changes.  Backward jumps clear the forced low bits of each lane,
    /// which the next forward step ignores.
    pub fn jump(&mut self, steps: isize)
        requires
            old(self).wf(),
            steps != isize::MIN,
        ensures
            final(self).wf(),
            final(self).jump_len() == steps,
            final(self).back_rows() == old(self).back_rows(),
            final(self).lane_count() == old(self).lane_count(),
            steps >= 0 ==> {
                &&& forall|i: int|
                    0 <= i < old(self).lane_count() ==> final(self).lanes().0[i] == vec_mul32(
                        old(self).lanes().0[i],
                        mat_pow32(m1_rows(), steps as nat),
                    )
                &&& forall|i: int|
                    0 <= i < old(self).lane_count() ==> final(self).lanes().1[i] == vec_mul32(
                        old(self).lanes().1[i],
                        mat_pow32(m2_rows(), steps as nat),
                    )
                &&& forall|i: int|
                    0 <= i < old(self).lane_count() ==> final(self).lanes().2[i] == vec_mul32(
                        old(self).lanes().2[i],
                        mat_pow32(m3_rows(), steps as nat),
                    )
            },
            steps < 0 ==> {
                &&& forall|i: int|
                    0 <= i < old(self).lane_count() ==> final(self).lanes().0[i] == vec_mul32(
                        old(self).lanes().0[i],
                        mat_pow32(old(self).back_rows().0, (-(steps as int)) as nat),
                    )
                &&& forall|i: int|
                    0 <= i < old(self).lane_count() ==> final(self).lanes().1[i] == vec_mul32(
                        old(self).lanes().1[i],
                        mat_pow32(old(self).back_rows().1, (-(steps as int)) as nat),
                    )
                &&& forall|i: int|
                    0 <= i < old(self).lane_count() ==> final(self).lanes().2[i] == vec_mul32(
                        old(self).lanes().2[i],
                        mat_pow32(old(self).back_rows().2, (-(steps as int)) as nat),
                    )
            },
    {
        if self.last_jump != steps {
            self.last_jump = steps;
            if steps < 0 {
                let back = -steps;
                self.d1 = self.b1.pow(back as usize);
                self.d2 = self.b2.pow(back as usize);
                self.d3 = self.b3.pow(back as usize);
            } else {
                let (m1, m2, m3) = rng_matrix();
                self.d1 = m1.pow(steps as usize);
                self.d2 = m2.pow(steps as usize);
                self.d3 = m3.pow(steps as usize);
            }
        }
        self.seed1 = mul_lanes(&self.seed1, &self.d1);
        self.seed2 = mul_lanes(&self.seed2, &self.d2);
        self.seed3 = mul_lanes(&self.seed3, &self.d3);
    }

    /// Step every lane forward once; lane `i` of the result is the output
    /// of that lane's generator.
    pub fn rand(&mut self) -> (r: Vec<u32>)
        requires
            old(self).wf(),
        ensures
            final(self).wf(),
            final(self).jump_len() == old(self).jump_len(),
            final(self).back_rows() == old(self).back_rows(),
            final(self).delta_rows() == old(self).delta_rows(),
            final(self).lane_count() == old(self).lane_count(),
            forall|i: int|
                0 <= i < old(self).lane_count() ==> final(self).lanes().0[i] == next_s1_spec(
                    old(self).lanes().0[i],
                ),
            forall|i: int|
                0 <= i < old(self).lane_count() ==> final(self).lanes().1[i] == next_s2_spec(
                    old(self).lanes().1[i],
                ),
            forall|i: int|
                0 <= i < old(self).lane_count() ==> final(self).lanes().2[i] == next_s3_spec(
                    old(self).lanes().2[i],
                ),
            r@.len() == old(self).lane_count(),
            forall|i: int|
                0 <= i < old(self).lane_count() ==> r@[i] == (next_s1_spec(old(self).lanes().0[i])
                    ^ next_s2_spec(old(self).lanes().1[i]) ^ next_s3_spec(old(self).lanes().2[i])),
    {
        let n = self.seed1.len();
        let mut out: Vec<u32> = Vec::new();
        let mut i: usize = 0;
        while i < n
            invariant
                i <= n,
                n == old(self).lane_count(),
                self.lanes().0.len() == n && self.lanes().1.len() == n && self.lanes().2.len()
                    == n,
                self.back_rows() == old(self).back_rows(),
                self.delta_rows() == old(self).delta_rows(),
                self.jump_len() == old(self).jump_len(),
                out@.len() == i,
                forall|j: int| i <= j < n ==> self.lanes().0[j] == old(self).lanes().0[j],
                forall|j: int| i <= j < n ==> self.lanes().1[j] == old(self).lanes().1[j],
                forall|j: int| i <= j < n ==> self.lanes().2[j] == old(self).lanes().2[j],
                forall|j: int|
                    0 <= j < i ==> self.lanes().0[j] == next_s1_spec(old(self).lanes().0[j]),
                forall|j: int|
                    0 <= j < i ==> self.lanes().1[j] == next_s2_spec(old(self).lanes().1[j]),
                forall|j: int|
                    0 <= j < i ==> self.lanes().2[j] == next_s3_spec(old(self).lanes().2[j]),
                forall|j: int|
                    0 <= j < i ==> out@[j] == (next_s1_spec(old(self).lanes().0[j]) ^ next_s2_spec(
                        old(self).lanes().1[j],
                    ) ^ next_s3_spec(old(self).lanes().2[j])),
            decreases n - i,
        {
            let s1 = self.seed1[i];
            let s2 = self.seed2[i];
            let s3 = self.seed3[i];
            let n1 = ((s1 & 0xFFFF_FFFEu32) << 12u32) ^ (((s1 & 0x7FFC0u32) ^ (s1 >> 13u32))
                >> 6u32);
            let n2 = ((s2 & 0xFFFF_FFF8u32) << 4u32) ^ (((s2 >> 2u32) ^ (s2 & 0x3F80_0000u32))
                >> 23u32);
            let n3 = ((s3 & 0xFFFF_FFF0u32) << 17u32) ^ (((s3 >> 3u32) ^ (s3 & 0x1FFF_FF00u32))
                >> 8u32);
            self.seed1[i] = n1;
            self.seed2[i] = n2;
            self.seed3[i] = n3;
            out.push(n1 ^ n2 ^ n3);
            i += 1;
        }
        out
    }

    /// Step every lane backward once; lane `i` of the result is the XOR of
    /// that lane's stepped-back registers.
    pub fn rand_back(&mut self) -> (r: Vec<u32>)
        requires
            old(self).wf(),
        ensures
            final(self).wf(),
            final(self).jump_len() == old(self).jump_len(),
            final(self).back_rows() == old(self).back_rows(),
            final(self).delta_rows() == old(self).delta_rows(),
            final(self).lane_count() == old(self).lane_count(),
            forall|i: int|
                0 <= i < old(self).lane_count() ==> final(self).lanes().0[i] == prev_s1_spec(
                    old(self).lanes().0[i],
                ),
            forall|i: int|
                0 <= i < old(self).lane_count() ==> final(self).lanes().1[i] == prev_s2_spec(
                    old(self).lanes().1[i],
                ),
            forall|i: int|
                0 <= i < old(self).lane_count() ==> final(self).lanes().2[i] == prev_s3_spec(
                    old(self).lanes().2[i],
                ),
            r@.len() == old(self).lane_count(),
            forall|i: int|
                0 <= i < old(self).lane_count() ==> r@[i] == (prev_s1_spec(old(self).lanes().0[i])
                    ^ prev_s2_spec(old(self).lanes().1[i]) ^ prev_s3_spec(old(self).lanes().2[i])),
    {
        self.seed1 = prev_s1(&self.seed1);
        self.seed2 = prev_s2(&self.seed2);
        self.seed3 = prev_s3(&self.seed3);
        let n = self.seed1.len();
        let mut out: Vec<u32> = Vec::new();
        let mut i: usize = 0;
        while i < n
            invariant
                i <= n,
                n == old(self).lane_count(),
                self.lanes().0.len() == n && self.lanes().1.len() == n && self.lanes().2.len()
                    == n,
                self.back_rows() == old(self).back_rows(),
                self.delta_rows() == old(self).delta_rows(),
                self.jump_len() == old(self).jump_len(),
                forall|j: int|
                    0 <= j < n ==> self.lanes().0[j] == prev_s1_spec(old(self).lanes().0[j]),
                forall|j: int|
                    0 <= j < n ==> self.lanes().1[j] == prev_s2_spec(old(self).lanes().1[j]),
                forall|j: int|
                    0 <= j < n ==> self.lanes().2[j] == prev_s3_spec(old(self).lanes().2[j]),
                out@.len() == i,
                forall|j: int|
                    0 <= j < i ==> out@[j] == (self.lanes().0[j] ^ self.lanes().1[j]
                        ^ self.lanes().2[j]),
            decreases n - i,
        {
            out.push(self.seed1[i] ^ self.seed2[i] ^ self.seed3[i]);
            i += 1;
        }
        out
    }
}

/// Lane `i` is the start value advanced `i` times by the step matrix.
fn seed_lanes(start: u32, step: &BitMatrix32, lanes: usize) -> (r: Vec<u32>)
    requires
        step.wf(),
    ensures
        r@.len() == lanes,
        forall|i: int| 0 <= i < lanes ==> r@[i] == lane_iter(start, step@, i as nat),
{
    let mut out: Vec<u32> = Vec::new();
    let mut seed = start;
    let mut i: usize = 0;
    while i < lanes
        invariant
            step.wf(),
            i <= lanes,
            out@.len() == i,
            seed == lane_iter(start, step@, i as nat),
            forall|j: int| 0 <= j < i ==> out@[j] == lane_iter(start, step@, j as nat),
        decreases lanes - i,
    {
        out.push(seed);
        seed = step.vec_mul(seed);
        i += 1;
    }
    out
}

/// Multiply every lane by the same matrix.
fn mul_lanes(lanes: &Vec<u32>, m: &BitMatrix32) -> (r: Vec<u32>)
    requires
        m.wf(),
    ensures
        r@.len() == lanes@.len(),
        forall|i: int| 0 <= i < lanes@.len() ==> r@[i] == vec_mul32(lanes@[i], m@),
{
    let mut out: Vec<u32> = Vec::new();
    let mut i: usize = 0;
    while i < lanes.len()
        invariant
            m.wf(),
            i <= lanes@.len(),
            out@.len() == i,
            forall|j: int| 0 <= j < i ==> out@[j] == vec_mul32(lanes@[j], m@),
        decreases lanes@.len() - i,
    {
        out.push(m.vec_mul(lanes[i]));
        i += 1;
    }
    out
}

/// Iterating the first step matrix reproduces the scalar generator: lane
/// `i` of a one-interval construction is the state after `i` steps, so N
/// consecutive scalar outputs equal the first N lanes of one `rand` call.
pub proof fn lemma_lanes_match_scalar(s: (u32, u32, u32), i: nat)
    ensures
        lane_iter(s.0, mat_pow32(m1_rows(), 1), i) == state_after(s, i).0,
        lane_iter(s.1, mat_pow32(m2_rows(), 1), i) == state_after(s, i).1,
        lane_iter(s.2, mat_pow32(m3_rows(), 1), i) == state_after(s, i).2,
        next_s1_spec(lane_iter(s.0, mat_pow32(m1_rows(), 1), i)) ^ next_s2_spec(
            lane_iter(s.1, mat_pow32(m2_rows(), 1), i),
        ) ^ next_s3_spec(lane_iter(s.2, mat_pow32(m3_rows(), 1), i)) == output_at(s, i + 1),
    decreases i,
{
    lemma_mat_mul_eye32(m1_rows());
    lemma_mat_mul_eye32(m2_rows());
    lemma_mat_mul_eye32(m3_rows());
    assert(mat_pow32(m1_rows(), 1) == mat_mul32(mat_pow32(m1_rows(), 0), m1_rows()));
    assert(mat_pow32(m2_rows(), 1) == mat_mul32(mat_pow32(m2_rows(), 0), m2_rows()));
    assert(mat_pow32(m3_rows(), 1) == mat_mul32(mat_pow32(m3_rows(), 0), m3_rows()));
    if i == 0 {
        lemma_step_matrix_action(s.0);
        lemma_step_matrix_action(s.1);
        lemma_step_matrix_action(s.2);
        assert(state_after(s, 1) == crate::rand32::step_state(state_after(s, 0)));
    } else {
        lemma_lanes_match_scalar(s, (i - 1) as nat);
        lemma_step_matrix_action(state_after(s, (i - 1) as nat).0);
        lemma_step_matrix_action(state_after(s, (i - 1) as nat).1);
        lemma_step_matrix_action(state_after(s, (i - 1) as nat).2);
        lemma_step_matrix_action(state_after(s, i).0);
        lemma_step_matrix_action(state_after(s, i).1);
        lemma_step_matrix_action(state_after(s, i).2);
        assert(state_after(s, i) == crate::rand32::step_state(state_after(s, (i - 1) as nat)));
        assert(state_after(s, i + 1) == crate::rand32::step_state(state_after(s, i)));
    }
}

/// Rows beneath `k` of every positive power of a matrix whose rows beneath
/// `k` are zero stay zero.
proof fn lemma_pow_low_rows_zero(b: Seq<u32>, k: u32, n: nat)
    requires
        b.len() == 32,
        k < 32,
        forall|j: int| 0 <= j < k ==> b[j] == 0u32,
        n >= 1,
    ensures
        forall|j: int| 0 <= j < k ==> mat_pow32(b, n)[j] == 0u32,
    decreases n,
{
    crate::matrix32::lemma_mat_pow_len32(b, n);
    if n == 1 {
        assert forall|j: int| 0 <= j < k implies mat_pow32(b, 1)[j] == 0u32 by {
            assert(mat_pow32(b, 1) == mat_mul32(mat_pow32(b, 0), b));
            lemma_vec_mul_unit32(j as u32, b);
        }
    } else {
        lemma_pow_low_rows_zero(b, k, (n - 1) as nat);
        crate::matrix32::lemma_mat_pow_len32(b, (n - 1) as nat);
        assert forall|j: int| 0 <= j < k implies mat_pow32(b, n)[j] == 0u32 by {
            assert(mat_pow32(b, n) == mat_mul32(mat_pow32(b, (n - 1) as nat), b));
            lemma_vm_prefix_zero32(b, 32);
        }
    }
}

/// A forward jump of `n` steps followed by a backward jump of `n` steps is
/// the identity on the emitted sequence: the round trip recovers each lane
/// on every bit above the forced ones, and a forward step never reads the
/// bits beneath them, so every subsequent output is unchanged.
pub proof fn lemma_jump_round_trip(v: u32, m: Seq<u32>, b: Seq<u32>, mask: u32, k: u32, n: nat)
    requires
        m == m1_rows() && mask == 0xFFFF_FFFEu32 && k == 1 || m == m2_rows() && mask
            == 0xFFFF_FFF8u32 && k == 3 || m == m3_rows() && mask == 0xFFFF_FFF0u32 && k == 4,
        b.len() == 32,
        forall|j: int| 0 <= j < k ==> b[j] == 0u32,
        k == 1 ==> forall|s: u32| #[trigger] vec_mul32(next_s1_spec(s), b) == s & mask,
        k == 3 ==> forall|s: u32| #[trigger] vec_mul32(next_s2_spec(s), b) == s & mask,
        k == 4 ==> forall|s: u32| #[trigger] vec_mul32(next_s3_spec(s), b) == s & mask,
        n >= 1,
    ensures
        vec_mul32(vec_mul32(v, mat_pow32(m, n)), mat_pow32(b, n)) == v & mask,
    decreases n,
{
    crate::matrix32::lemma_mat_pow_len32(m, n);
    crate::matrix32::lemma_mat_pow_len32(b, n);
    crate::matrix32::lemma_mat_pow_len32(m, (n - 1) as nat);
    crate::matrix32::lemma_mat_pow_len32(b, (n - 1) as nat);
    let t = vec_mul32(v, mat_pow32(m, n));
    let u = vec_mul32(v, mat_pow32(m, (n - 1) as nat));
    // peel the innermost forward step: t == (v * m^(n-1)) * m == next(u)
    assert(mat_pow32(m, n) == mat_mul32(mat_pow32(m, (n - 1) as nat), m));
    lemma_vec_mul_assoc32(v, mat_pow32(m, (n - 1) as nat), m);
    lemma_step_matrix_action(u);
    // peel the outermost backward step: b^n == b * b^(n-1)
    crate::matrix32::lemma_mat_pow_left32(b, (n - 1) as nat);
    lemma_vec_mul_assoc32(t, b, mat_pow32(b, (n - 1) as nat));
    // t * b == u & mask, by the backward matrix's contract
    assert(vec_mul32(t, b) == u & mask);
    if n == 1 {
        assert(mat_pow32(m, 0) == eye32());
        assert(mat_pow32(b, 0) == eye32());
        lemma_vec_mul_eye32(v);
        lemma_vec_mul_eye32(u & mask);
    } else {
        lemma_pow_low_rows_zero(b, k, (n - 1) as nat);
        assert(mask == 0xffff_ffffu32 << k) by (bit_vector)
            requires
                mask == 0xFFFF_FFFEu32 && k == 1 || mask == 0xFFFF_FFF8u32 && k == 3 || mask
                    == 0xFFFF_FFF0u32 && k == 4,
        ;
        lemma_vec_mul_low_zero32(u, mat_pow32(b, (n - 1) as nat), k);
        // so (u & mask) * b^(n-1) == u * b^(n-1), and induction closes it
        lemma_jump_round_trip(v, m, b, mask, k, (n - 1) as nat);
    }
}

/// The round trip, stated on the emitted outputs: after a forward jump of
/// `n` and a backward jump of `n`, every register's next forward step, and
/// with it every subsequent output, is what it would have been without the
/// two jumps.
pub proof fn lemma_jump_round_trip_outputs(s: (u32, u32, u32), b1: Seq<u32>, b2: Seq<u32>, b3: Seq<u32>, n: nat)
    requires
        b1.len() == 32 && b2.len() == 32 && b3.len() == 32,
        forall|j: int| 0 <= j < 1 ==> b1[j] == 0u32,
        forall|j: int| 0 <= j < 3 ==> b2[j] == 0u32,
        forall|j: int| 0 <= j < 4 ==> b3[j] == 0u32,
        forall|v: u32| #[trigger] vec_mul32(next_s1_spec(v), b1) == v & 0xFFFF_FFFEu32,
        forall|v: u32| #[trigger] vec_mul32(next_s2_spec(v), b2) == v & 0xFFFF_FFF8u32,
        forall|v: u32| #[trigger] vec_mul32(next_s3_spec(v), b3) == v & 0xFFFF_FFF0u32,
        n >= 1,
    ensures
        next_s1_spec(vec_mul32(vec_mul32(s.0, mat_pow32(m1_rows(), n)), mat_pow32(b1, n)))
            == next_s1_spec(s.0),
        next_s2_spec(vec_mul32(vec_mul32(s.1, mat_pow32(m2_rows(), n)), mat_pow32(b2, n)))
            == next_s2_spec(s.1),
        next_s3_spec(vec_mul32(vec_mul32(s.2, mat_pow32(m3_rows(), n)), mat_pow32(b3, n)))
            == next_s3_spec(s.2),
{
    lemma_jump_round_trip(s.0, m1_rows(), b1, 0xFFFF_FFFEu32, 1, n);
    lemma_jump_round_trip(s.1, m2_rows(), b2, 0xFFFF_FFF8u32, 3, n);
    lemma_jump_round_trip(s.2, m3_rows(), b3, 0xFFFF_FFF0u32, 4, n);
    lemma_next_ignores_low(s.0);
    lemma_next_ignores_low(s.1);
    lemma_next_ignores_low(s.2);
}

/// A backward jump of `n` steps followed by a forward jump of `n` steps
/// recovers a lane on every bit above the forced ones, whatever the lane
/// held: stepping back then forward cancels there because the single-step
/// maps are mutually inverse above those bits.
pub proof fn lemma_jump_back_round_trip(v: u32, m: Seq<u32>, b: Seq<u32>, mask: u32, k: u32, n: nat)
    requires
        m == m1_rows() && mask == 0xFFFF_FFFEu32 && k == 1 || m == m2_rows() && mask
            == 0xFFFF_FFF8u32 && k == 3 || m == m3_rows() && mask == 0xFFFF_FFF0u32 && k == 4,
        b.len() == 32,
        k == 1 ==> forall|x: u32| #[trigger] vec_mul32(x, b) == prev_s1_spec(x),
        k == 3 ==> forall|x: u32| #[trigger] vec_mul32(x, b) == prev_s2_spec(x),
        k == 4 ==> forall|x: u32| #[trigger] vec_mul32(x, b) == prev_s3_spec(x),
    ensures
        vec_mul32(vec_mul32(v, mat_pow32(b, n)), mat_pow32(m, n)) & mask == v & mask,
    decreases n,
{
    crate::matrix32::lemma_mat_pow_len32(m, n);
    crate::matrix32::lemma_mat_pow_len32(b, n);
    if n == 0 {
        lemma_vec_mul_eye32(v);
        lemma_vec_mul_eye32(vec_mul32(v, eye32()));
    } else {
        crate::matrix32::lemma_mat_pow_len32(m, (n - 1) as nat);
        crate::matrix32::lemma_mat_pow_len32(b, (n - 1) as nat);
        let w = vec_mul32(v, b);
        // peel the outermost backward step: v * b^n == (v * b) * b^(n-1)
        crate::matrix32::lemma_mat_pow_left32(b, (n - 1) as nat);
        lemma_vec_mul_assoc32(v, b, mat_pow32(b, (n - 1) as nat));
        // peel the innermost forward step: * m^n == (* m^(n-1)) * m
        lemma_vec_mul_assoc32(
            vec_mul32(w, mat_pow32(b, (n - 1) as nat)),
            mat_pow32(m, (n - 1) as nat),
            m,
        );
        let t = vec_mul32(vec_mul32(w, mat_pow32(b, (n - 1) as nat)), mat_pow32(m, (n - 1) as nat));
        lemma_jump_back_round_trip(w, m, b, mask, k, (n - 1) as nat);
        // t agrees with w above the forced bits, which is all the next
        // forward step reads
        lemma_step_matrix_action(t);
        lemma_next_ignores_low(t);
        lemma_next_ignores_low(w);
        lemma_next_prev(v);
    }
}

/// The backward round trip, stated on the emitted outputs: after a
/// backward jump of `n` and a forward jump of `n`, every register's next
/// forward step, and with it every subsequent output, is what it would
/// have been without the two jumps.
pub proof fn lemma_jump_back_round_trip_outputs(
    s: (u32, u32, u32),
    b1: Seq<u32>,
    b2: Seq<u32>,
    b3: Seq<u32>,
    n: nat,
)
    requires
        b1.len() == 32 && b2.len() == 32 && b3.len() == 32,
        forall|x: u32| #[trigger] vec_mul32(x, b1) == prev_s1_spec(x),
        forall|x: u32| #[trigger] vec_mul32(x, b2) == prev_s2_spec(x),
        forall|x: u32| #[trigger] vec_mul32(x, b3) == prev_s3_spec(x),
    ensures
        next_s1_spec(vec_mul32(vec_mul32(s.0, mat_pow32(b1, n)), mat_pow32(m1_rows(), n)))
            == next_s1_spec(s.0),
        next_s2_spec(vec_mul32(vec_mul32(s.1, mat_pow32(b2, n)), mat_pow32(m2_rows(), n)))
            == next_s2_spec(s.1),
        next_s3_spec(vec_mul32(vec_mul32(s.2, mat_pow32(b3, n)), mat_pow32(m3_rows(), n)))
            == next_s3_spec(s.2),
{
    lemma_jump_back_round_trip(s.0, m1_rows(), b1, 0xFFFF_FFFEu32, 1, n);
    lemma_jump_back_round_trip(s.1, m2_rows(), b2, 0xFFFF_FFF8u32, 3, n);
    lemma_jump_back_round_trip(s.2, m3_rows(), b3, 0xFFFF_FFF0u32, 4, n);
    let t1 = vec_mul32(vec_mul32(s.0, mat_pow32(b1, n)), mat_pow32(m1_rows(), n));
    let t2 = vec_mul32(vec_mul32(s.1, mat_pow32(b2, n)), mat_pow32(m2_rows(), n));
    let t3 = vec_mul32(vec_mul32(s.2, mat_pow32(b3, n)), mat_pow32(m3_rows(), n));
    lemma_next_ignores_low(t1);
    lemma_next_ignores_low(t2);
    lemma_next_ignores_low(t3);
    lemma_next_ignores_low(s.0);
    lemma_next_ignores_low(s.1);
    lemma_next_ignores_low(s.2);
}

} // verus!
