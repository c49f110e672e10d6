//! Recovery of the generator state from a run of `output mod 24` samples.
//!
//! Each sample leaks the low three bits of one output whenever the output
//! is below the largest multiple of 24 that fits in 32 bits, which is
//! overwhelmingly likely.  A rank-reduced 128x128 inverse matrix maps the
//! packed samples back to the 88 live state bits; when fewer than 30
//! samples are given, the missing bits are enumerated; every candidate is
//! validated by re-running the reference generator.

use vstd::prelude::*;

use crate::matrix::Error as MatError;
use crate::matrix128::BitMatrix128;
use crate::matrix128::eye128;
use crate::matrix128::hskip_rows128;
use crate::matrix128::lowmask128;
use crate::matrix128::mat_mul128;
use crate::matrix128::vec_mul128;
use crate::matrix128::vskip_rows128;
use crate::matrix32::BitMatrix32;
use crate::matrix32::mat_mul32;
use crate::matrix32::mat_pow32;
use crate::matrix32::eye32;
use crate::rand32::Rand32Ref;
use crate::rand32::m1_rows;
use crate::rand32::m2_rows;
use crate::rand32::m3_rows;
use crate::rand32::output_at;
use crate::rand32::rng_matrix;
use crate::rand32::state_after;
use crate::rand32::step_state;

verus! {

/// How a solver run can fail.
#[derive(Debug, Clone, Copy, PartialEq, Eq)]
pub enum Error {
    /// Fewer than 20 samples were given.
    SequenceTooShort,
    /// All 88 state bits were determined, but re-simulation contradicted
    /// the samples: some sample's upper output bits were not zero, or the
    /// samples do not come from this generator.
    ValidationFailed,
    /// Enumeration of the undetermined bits found no consistent state.
    NotFound,
}

/// The first `n` outputs from state `s`, reduced mod 24.
pub open spec fn mod24_seq(s: (u32, u32, u32), n: nat) -> Seq<u32> {
    Seq::new(n, |i: int| output_at(s, (i + 1) as nat) % 24u32)
}

/// The state reproduces every sample of the sequence.
pub open spec fn mod24_validates(state: (u32, u32, u32), seqv: Seq<u32>) -> bool {
    mod24_seq(state, seqv.len()) == seqv
}

/// The low 3 bits of the first `n` samples, packed 3 bits per sample.
pub open spec fn mod24_prefix_vector(seqv: Seq<u32>, n: int) -> u128
    decreases n,
{
    if n <= 0 {
        0u128
    } else {
        mod24_prefix_vector(seqv, n - 1) | (((seqv[n - 1] & 7u32) as u128) << ((3 * (n - 1)) as u128))
    }
}

/// The observation vector: at most 30 samples packed, masked to the 88
/// usable bits.
pub open spec fn mod24_vector(seqv: Seq<u32>) -> u128 {
    mod24_prefix_vector(
        seqv,
        if seqv.len() < 30 {
            seqv.len() as int
        } else {
            30
        },
    ) & lowmask128(88)
}

/// Unpack a 128-bit pre-image into the three registers: 31, 29 and 28
/// recovered bits, shifted above the forced low bits, which stay zero.
pub open spec fn seed_of_vector(v: u128) -> (u32, u32, u32) {
    let s1 = ((v << 1u128) & 0xffff_ffffu128) as u32;
    let v2 = v >> 31u128;
    let s2 = ((v2 << 3u128) & 0xffff_ffffu128) as u32;
    let v3 = v2 >> 29u128;
    let s3 = ((v3 << 4u128) & 0xffff_ffffu128) as u32;
    (s1, s2, s3)
}

/// The contributions of one register to the observed bits: bit `b` of
/// sample `p` (for `p` up to `n`) is taken from the low 3 bits of row `r`
/// of the `p`-th power of the register's step matrix.
pub open spec fn mod24_row_prefix(m: Seq<u32>, r: int, n: int) -> u128
    decreases n,
{
    if n <= 0 {
        0u128
    } else {
        mod24_row_prefix(m, r, n - 1) | (((mat_pow32(m, n as nat)[r] & 7u32) as u128) << ((3 * (n
            - 1)) as u128))
    }
}

/// The raw 128x128 observation matrix, before rank reduction: rows are the
/// 96 state bits (32 per register), columns the 90 observed bits.
pub open spec fn mod24_base() -> Seq<u128> {
    Seq::new(
        128,
        |i: int|
            if i < 32 {
                mod24_row_prefix(m1_rows(), i, 30)
            } else if i < 64 {
                mod24_row_prefix(m2_rows(), i - 32, 30)
            } else if i < 96 {
                mod24_row_prefix(m3_rows(), i - 64, 30)
            } else {
                0u128
            },
    )
}

/// The matrix the solver inverts: the observation matrix with the forced
/// input rows deleted, the columns beyond 88 dropped, and the identity on
/// the free rows 88..128 so that the inverse leaves enumeration bits alone.
pub open spec fn mod24_design() -> Seq<u128> {
    let reduced = hskip_rows128(
        vskip_rows128(vskip_rows128(vskip_rows128(mod24_base(), 64, 68), 32, 35), 0, 1),
        88,
        128,
    );
    Seq::new(
        128,
        |i: int|
            if i < 88 {
                reduced[i]
            } else {
                1u128 << (i as u128)
            },
    )
}

/// The single fully-determined candidate, for 30 samples or more.
pub open spec fn mod24_base_candidate(inv: Seq<u128>, seqv: Seq<u32>) -> (u32, u32, u32) {
    seed_of_vector(vec_mul128(mod24_vector(seqv), inv))
}

/// How many of the 88 live state bits the samples leave undetermined.
pub open spec fn mod24_unknown_bits(len: nat) -> nat {
    if 3 * len >= 88 {
        0
    } else {
        (88 - 3 * len) as nat
    }
}

/// The candidate obtained by grafting `brute` onto the undetermined bits.
pub open spec fn mod24_brute_candidate(inv: Seq<u128>, seqv: Seq<u32>, brute: u128) -> (
    u32,
    u32,
    u32,
) {
    seed_of_vector(vec_mul128(mod24_vector(seqv) | (brute << ((3 * seqv.len()) as u128)), inv))
}

/// The contribution rows of one register: row `r` packs, for each of the
/// 30 powers of the step matrix, the low 3 bits of that power's row `r`.
fn mod24_reg_rows(m: &BitMatrix32) -> (r: Vec<u128>)
    requires
        m.wf(),
    ensures
        r@.len() == 32,
        forall|j: int| 0 <= j < 32 ==> r@[j] == mod24_row_prefix(m@, j, 30),
{
    let mut vals: Vec<u128> = Vec::new();
    let mut i: usize = 0;
    while i < 32
        invariant
            i <= 32,
            vals@.len() == i,
            forall|j: int| 0 <= j < i ==> vals@[j] == 0u128,
        decreases 32 - i,
    {
        vals.push(0u128);
        i += 1;
    }
    let mut cur = BitMatrix32::eye().mul(m);
    proof {
        assert(mat_pow32(m@, 0) == eye32());
        assert(mat_pow32(m@, 1) == mat_mul32(mat_pow32(m@, 0), m@));
    }
    let mut p: usize = 1;
    while p <= 30
        invariant
            m.wf(),
            cur.wf(),
            1 <= p <= 31,
            cur@ == mat_pow32(m@, p as nat),
            vals@.len() == 32,
            forall|j: int| 0 <= j < 32 ==> vals@[j] == mod24_row_prefix(m@, j, p - 1),
        decreases 31 - p,
    {
        let mut rr: usize = 0;
        while rr < 32
            invariant
                m.wf(),
                cur.wf(),
                1 <= p <= 30,
                rr <= 32,
                cur@ == mat_pow32(m@, p as nat),
                vals@.len() == 32,
                forall|j: int| 0 <= j < rr ==> vals@[j] == mod24_row_prefix(m@, j, p as int),
                forall|j: int| rr <= j < 32 ==> vals@[j] == mod24_row_prefix(m@, j, p - 1),
            decreases 32 - rr,
        {
            let t: u128 = ((cur.row(rr) & 7u32) as u128) << ((3 * (p - 1)) as u128);
            vals[rr] = vals[rr] | t;
            proof {
                assert(mod24_row_prefix(m@, rr as int, p as int) == mod24_row_prefix(
                    m@,
                    rr as int,
                    p - 1,
                ) | (((mat_pow32(m@, p as nat)[rr as int] & 7u32) as u128) << ((3 * (p
                    - 1)) as u128)));
            }
            rr += 1;
        }
        proof {
            assert(mat_pow32(m@, (p + 1) as nat) == mat_mul32(mat_pow32(m@, p as nat), m@));
        }
        cur = cur.mul(m);
        p += 1;
    }
    vals
}

/// Build and certify the inverse of the design matrix.  `Err` is possible
/// only with the design matrix proved singular, which the constant matrix
/// is not: no body that fails could meet this contract.
pub fn build_inv_matrix() -> (r: Result<BitMatrix128, MatError>)
    ensures
        match r {
            Ok(m) => m.wf() && mat_mul128(mod24_design(), m@) == eye128() && mat_mul128(
                m@,
                mod24_design(),
            ) == eye128(),
            Err(_) => forall|b: Seq<u128>|
                b.len() == 128 ==> mat_mul128(mod24_design(), b) != eye128(),
        },
{
    let (m1, m2, m3) = rng_matrix();
    let r1 = mod24_reg_rows(&m1);
    let r2 = mod24_reg_rows(&m2);
    let r3 = mod24_reg_rows(&m3);
    let mut rows: Vec<u128> = Vec::new();
    let mut i: usize = 0;
    while i < 128
        invariant
            i <= 128,
            rows@.len() == i,
            r1@.len() == 32 && r2@.len() == 32 && r3@.len() == 32,
            forall|j: int| 0 <= j < 32 ==> r1@[j] == mod24_row_prefix(m1_rows(), j, 30),
            forall|j: int| 0 <= j < 32 ==> r2@[j] == mod24_row_prefix(m2_rows(), j, 30),
            forall|j: int| 0 <= j < 32 ==> r3@[j] == mod24_row_prefix(m3_rows(), j, 30),
            forall|j: int| 0 <= j < i ==> rows@[j] == mod24_base()[j],
        decreases 128 - i,
    {
        let val: u128 = if i < 32 {
            r1[i]
        } else if i < 64 {
            r2[i - 32]
        } else if i < 96 {
            r3[i - 64]
        } else {
            0u128
        };
        rows.push(val);
        i += 1;
    }
    let base = BitMatrix128::from_rows(rows);
    proof {
        assert(base@ =~= mod24_base());
    }
    let reduced = base.vskip(64, 68).vskip(32, 35).vskip(0, 1).hskip(88u128, 128u128);
    let mut rows2: Vec<u128> = Vec::new();
    let mut i: usize = 0;
    while i < 128
        invariant
            i <= 128,
            rows2@.len() == i,
            reduced.wf(),
            reduced@ == hskip_rows128(
                vskip_rows128(vskip_rows128(vskip_rows128(mod24_base(), 64, 68), 32, 35), 0, 1),
                88,
                128,
            ),
            forall|j: int| 0 <= j < i ==> rows2@[j] == mod24_design()[j],
        decreases 128 - i,
    {
        let val: u128 = if i < 88 {
            reduced.row(i)
        } else {
            1u128 << (i as u128)
        };
        rows2.push(val);
        i += 1;
    }
    let design = BitMatrix128::from_rows(rows2);
    proof {
        assert(design@ =~= mod24_design());
    }
    design.inv()
}

/// Run the generator `count` steps and collect the outputs mod 24.
pub fn produce_mod24(rng: &mut Rand32Ref, count: usize) -> (r: Vec<u32>)
    ensures
        r@ == mod24_seq(old(rng)@, count as nat),
        final(rng)@ == state_after(old(rng)@, count as nat),
{
    let mut out: Vec<u32> = Vec::new();
    let mut i: usize = 0;
    proof {
        assert(state_after(old(rng)@, 0) == old(rng)@);
    }
    while i < count
        invariant
            i <= count,
            out@.len() == i,
            rng@ == state_after(old(rng)@, i as nat),
            forall|j: int| 0 <= j < i ==> out@[j] == output_at(old(rng)@, (j + 1) as nat) % 24u32,
        decreases count - i,
    {
        proof {
            assert(state_after(old(rng)@, (i + 1) as nat) == step_state(
                state_after(old(rng)@, i as nat),
            ));
        }
        let v = rng.rand();
        out.push(v % 24);
        i += 1;
    }
    proof {
        assert(out@ =~= mod24_seq(old(rng)@, count as nat));
    }
    out
}

/// Whether re-running the generator from `state` reproduces the samples.
fn matches_sequence(state: (u32, u32, u32), sequence: &Vec<u32>) -> (r: bool)
    ensures
        r == mod24_validates(state, sequence@),
{
    let mut rng = Rand32Ref::from_state(state);
    let mut i: usize = 0;
    proof {
        assert(state_after(state, 0) == state);
    }
    while i < sequence.len()
        invariant
            i <= sequence@.len(),
            rng@ == state_after(state, i as nat),
            forall|j: int|
                0 <= j < i ==> output_at(state, (j + 1) as nat) % 24u32 == sequence@[j],
        decreases sequence@.len() - i,
    {
        proof {
            assert(state_after(state, (i + 1) as nat) == step_state(state_after(state, i as nat)));
        }
        let v = rng.rand();
        if v % 24 != sequence[i] {
            proof {
                assert(mod24_seq(state, sequence@.len())[i as int] != sequence@[i as int]);
            }
            return false;
        }
        i += 1;
    }
    proof {
        assert(mod24_seq(state, sequence@.len()) =~= sequence@);
    }
    true
}

/// Pack the low 3 bits of up to 30 samples into an 88-bit vector.
pub fn mod24_to_vector(mod24: &Vec<u32>) -> (r: u128)
    ensures
        r == mod24_vector(mod24@),
{
    let count = if mod24.len() < 30 {
        mod24.len()
    } else {
        30
    };
    let mut vec: u128 = 0;
    let mut i: usize = 0;
    while i < count
        invariant
            i <= count,
            count == if mod24@.len() < 30 {
                mod24@.len() as int
            } else {
                30
            },
            vec == mod24_prefix_vector(mod24@, i as int),
        decreases count - i,
    {
        vec = vec | (((mod24[i] & 7u32) as u128) << ((3 * i) as u128));
        i += 1;
    }
    proof {
        assert((vec << 40u128) >> 40u128 == vec & lowmask128(88)) by (bit_vector);
    }
    (vec << 40u128) >> 40u128
}

/// Unpack a 128-bit pre-image into the three registers.
pub fn vector_to_seed(vector: u128) -> (r: (u32, u32, u32))
    ensures
        r == seed_of_vector(vector),
{
    proof {
        assert((vector << 1u128) & 0xffff_ffffu128 < 0x1_0000_0000u128 && ((vector >> 31u128)
            << 3u128) & 0xffff_ffffu128 < 0x1_0000_0000u128 && (((vector >> 31u128) >> 29u128)
            << 4u128) & 0xffff_ffffu128 < 0x1_0000_0000u128) by (bit_vector);
    }
    let s1 = ((vector << 1u128) & 0xffff_ffffu128) as u32;
    let v2 = vector >> 31u128;
    let s2 = ((v2 << 3u128) & 0xffff_ffffu128) as u32;
    let v3 = v2 >> 29u128;
    let s3 = ((v3 << 4u128) & 0xffff_ffffu128) as u32;
    (s1, s2, s3)
}

/// Solver for runs of `output mod 24` observations.
pub struct Mod24Solver {
    inv_matrix: BitMatrix128,
}

impl View for Mod24Solver {
    type V = Seq<u128>;

    closed spec fn view(&self) -> Seq<u128> {
        self.inv_matrix@
    }
}

impl Mod24Solver {
    /// The held matrix is a certified two-sided inverse of the design
    /// matrix.
    pub open spec fn wf(&self) -> bool {
        &&& self@.len() == 128
        &&& mat_mul128(mod24_design(), self@) == eye128()
        &&& mat_mul128(self@, mod24_design()) == eye128()
    }

    /// Build the solver.  `Err` is possible only with the design matrix
    /// proved singular, which it is not.
    pub fn new() -> (r: Result<Self, MatError>)
        ensures
            match r {
                Ok(s) => s.wf(),
                Err(_) => forall|b: Seq<u128>|
                    b.len() == 128 ==> mat_mul128(mod24_design(), b) != eye128(),
            },
    {
        match build_inv_matrix() {
            Ok(inv_matrix) => Ok(Mod24Solver { inv_matrix }),
            Err(e) => Err(e),
        }
    }

    /// Recover the generator state behind a run of `output mod 24`
    /// samples.  At least 20 samples are required; 30 determine the state
    /// outright, fewer leave `88 - 3k` bits to enumerate.  A returned
    /// state is always validated: re-running the generator reproduces
    /// every sample.  With 30 or more samples a failed validation is
    /// `ValidationFailed`; with fewer, exhausting the enumeration is
    /// `NotFound`.
    pub fn solve(&self, sequence: &Vec<u32>) -> (r: Result<(u32, u32, u32), Error>)
        requires
            self.wf(),
        ensures
            r == Err::<(u32, u32, u32), Error>(Error::SequenceTooShort) <==> sequence@.len() < 20,
            match r {
                Ok(state) => {
                    &&& sequence@.len() >= 20
                    &&& mod24_validates(state, sequence@)
                    &&& if sequence@.len() >= 30 {
                        state == mod24_base_candidate(self@, sequence@)
                    } else {
                        exists|b: u128|
                            #![trigger mod24_brute_candidate(self@, sequence@, b)]
                            {
                                &&& b < (1u128 << (mod24_unknown_bits(sequence@.len()) as u128))
                                &&& state == mod24_brute_candidate(self@, sequence@, b)
                                &&& mod24_validates(state, sequence@)
                                &&& forall|b2: u128|
                                    0 <= b2 < b ==> !mod24_validates(
                                        #[trigger] mod24_brute_candidate(self@, sequence@, b2),
                                        sequence@,
                                    )
                            }
                    }
                },
                Err(Error::SequenceTooShort) => sequence@.len() < 20,
                Err(Error::ValidationFailed) => sequence@.len() >= 30 && !mod24_validates(
                    mod24_base_candidate(self@, sequence@),
                    sequence@,
                ),
                Err(Error::NotFound) => 20 <= sequence@.len() < 30 && forall|b: u128|
                    b < (1u128 << (mod24_unknown_bits(sequence@.len()) as u128))
                        ==> !mod24_validates(
                        #[trigger] mod24_brute_candidate(self@, sequence@, b),
                        sequence@,
                    ),
            },
    {
        let known_values = sequence.len();
        if known_values < 20 {
            return Err(Error::SequenceTooShort);
        }
        let vector = mod24_to_vector(sequence);
        if known_values >= 30 {
            let out_vector = self.inv_matrix.vec_mul(vector);
            let state = vector_to_seed(out_vector);
            if matches_sequence(state, sequence) {
                Ok(state)
            } else {
                Err(Error::ValidationFailed)
            }
        } else {
            let known_bits = known_values * 3;
            let unknown_bits = 88 - known_bits;
            let count: u128 = 1u128 << (unknown_bits as u128);
            let mut brute: u128 = 0;
            while brute < count
                invariant
                    self.wf(),
                    20 <= sequence@.len() < 30,
                    known_bits == 3 * sequence@.len(),
                    unknown_bits == mod24_unknown_bits(sequence@.len()),
                    count == 1u128 << (mod24_unknown_bits(sequence@.len()) as u128),
                    brute <= count,
                    vector == mod24_vector(sequence@),
                    forall|b2: u128|
                        0 <= b2 < brute ==> !mod24_validates(
                            #[trigger] mod24_brute_candidate(self@, sequence@, b2),
                            sequence@,
                        ),
                decreases count - brute,
            {
                let v = vector | (brute << (known_bits as u128));
                let out_vector = self.inv_matrix.vec_mul(v);
                let state = vector_to_seed(out_vector);
                if matches_sequence(state, sequence) {
                    proof {
                        assert((known_bits as u128) == ((3 * sequence@.len()) as u128));
                        assert(state == mod24_brute_candidate(self@, sequence@, brute));
                    }
                    return Ok(state);
                }
                brute += 1;
            }
            Err(Error::NotFound)
        }
    }
}

} // verus!
