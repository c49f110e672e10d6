//! Recovery of the generator state from two 56-bit observations, each a
//! 24-bit half-output followed by a full output of two consecutive steps.
//!
//! The four outputs cover 112 observed bits, of which 88 are kept after
//! dropping the masked-off high bytes and the over-specified columns; a
//! rank-reduced inverse maps them straight back to the state.

use vstd::prelude::*;

use crate::matrix::Error as MatError;
use crate::matrix128::BitMatrix128;
use crate::matrix128::eye128;
use crate::matrix128::hskip_rows128;
use crate::matrix128::lowmask128;
use crate::matrix128::mat_mul128;
use crate::matrix128::vec_mul128;
use crate::matrix128::vskip_rows128;
use crate::matrix32::BitMatrix32;
use crate::matrix32::mat_mul32;
use crate::matrix32::mat_pow32;
use crate::matrix32::eye32;
use crate::mod24::seed_of_vector;
use crate::rand32::m1_rows;
use crate::rand32::m2_rows;
use crate::rand32::m3_rows;
use crate::rand32::rng_matrix;

verus! {

/// The contributions of one register: row `r` packs, for each of the four
/// powers of the step matrix, the full 32 bits of that power's row `r`.
pub open spec fn u56_row_prefix(m: Seq<u32>, r: int, n: int) -> u128
    decreases n,
{
    if n <= 0 {
        0u128
    } else {
        u56_row_prefix(m, r, n - 1) | ((mat_pow32(m, n as nat)[r] as u128) << ((32 * (n
            - 1)) as u128))
    }
}

/// The raw observation matrix: rows are the 96 state bits, columns the
/// four full outputs of steps 1 to 4.
pub open spec fn u56_base() -> Seq<u128> {
    Seq::new(
        128,
        |i: int|
            if i < 32 {
                u56_row_prefix(m1_rows(), i, 4)
            } else if i < 64 {
                u56_row_prefix(m2_rows(), i - 32, 4)
            } else if i < 96 {
                u56_row_prefix(m3_rows(), i - 64, 4)
            } else {
                0u128
            },
    )
}

/// The matrix the solver inverts: forced input rows deleted; the bits
/// beyond the second observation, the masked-off high bytes of both 24-bit
/// halves and the leftover columns dropped; identity on the free rows.
pub open spec fn u56_design() -> Seq<u128> {
    let reduced = hskip_rows128(
        hskip_rows128(
            hskip_rows128(
                vskip_rows128(vskip_rows128(vskip_rows128(u56_base(), 64, 68), 32, 35), 0, 1),
                88,
                100,
            ),
            24,
            32,
        ),
        88,
        128,
    );
    Seq::new(
        128,
        |i: int|
            if i < 88 {
                reduced[i]
            } else {
                1u128 << (i as u128)
            },
    )
}

/// Pack two 56-bit observations into the 88-bit observation vector: the
/// 24-bit first halves at bits 0 and 56, the 32-bit second halves at bits
/// 24 and 80, the latter with four under-constrained bits skipped.
pub open spec fn two_u56_vector(val1: u64, val2: u64) -> u128 {
    let v0 = (val1 >> 32u64) as u128;
    let v1 = ((val1 << 32u64) >> 32u64) as u128;
    let v2 = (val2 >> 32u64) as u128;
    let v3 = ((val2 << 32u64) >> 36u64) as u128;
    (v0 | (v1 << 24u128) | (v2 << 56u128) | (v3 << 80u128)) & lowmask128(88)
}

/// The contribution rows of one register.
fn u56_reg_rows(m: &BitMatrix32) -> (r: Vec<u128>)
    requires
        m.wf(),
    ensures
        r@.len() == 32,
        forall|j: int| 0 <= j < 32 ==> r@[j] == u56_row_prefix(m@, j, 4),
{
    let mut vals: Vec<u128> = Vec::new();
    let mut i: usize = 0;
    while i < 32
        invariant
            i <= 32,
            vals@.len() == i,
            forall|j: int| 0 <= j < i ==> vals@[j] == 0u128,
        decreases 32 - i,
    {
        vals.push(0u128);
        i += 1;
    }
    let mut cur = BitMatrix32::eye().mul(m);
    proof {
        assert(mat_pow32(m@, 0) == eye32());
        assert(mat_pow32(m@, 1) == mat_mul32(mat_pow32(m@, 0), m@));
    }
    let mut p: usize = 1;
    while p <= 4
        invariant
            m.wf(),
            cur.wf(),
            1 <= p <= 5,
            cur@ == mat_pow32(m@, p as nat),
            vals@.len() == 32,
            forall|j: int| 0 <= j < 32 ==> vals@[j] == u56_row_prefix(m@, j, p - 1),
        decreases 5 - p,
    {
        let mut rr: usize = 0;
        while rr < 32
            invariant
                m.wf(),
                cur.wf(),
                1 <= p <= 4,
                rr <= 32,
                cur@ == mat_pow32(m@, p as nat),
                vals@.len() == 32,
                forall|j: int| 0 <= j < rr ==> vals@[j] == u56_row_prefix(m@, j, p as int),
                forall|j: int| rr <= j < 32 ==> vals@[j] == u56_row_prefix(m@, j, p - 1),
            decreases 32 - rr,
        {
            let t: u128 = (cur.row(rr) as u128) << ((32 * (p - 1)) as u128);
            vals[rr] = vals[rr] | t;
            proof {
                assert(u56_row_prefix(m@, rr as int, p as int) == u56_row_prefix(m@, rr as int, p
                    - 1) | ((mat_pow32(m@, p as nat)[rr as int] as u128) << ((32 * (p
                    - 1)) as u128)));
            }
            rr += 1;
        }
        proof {
            assert(mat_pow32(m@, (p + 1) as nat) == mat_mul32(mat_pow32(m@, p as nat), m@));
        }
        cur = cur.mul(m);
        p += 1;
    }
    vals
}

/// Build and certify the inverse of the design matrix.  `Err` is possible
/// only with the design matrix proved singular, which the constant matrix
/// is not: no body that fails could meet this contract.
pub fn build_inv_matrix() -> (r: Result<BitMatrix128, MatError>)
    ensures
        match r {
            Ok(m) => m.wf() && mat_mul128(u56_design(), m@) == eye128() && mat_mul128(
                m@,
                u56_design(),
            ) == eye128(),
            Err(_) => forall|b: Seq<u128>|
                b.len() == 128 ==> mat_mul128(u56_design(), b) != eye128(),
        },
{
    let (m1, m2, m3) = rng_matrix();
    let r1 = u56_reg_rows(&m1);
    let r2 = u56_reg_rows(&m2);
    let r3 = u56_reg_rows(&m3);
    let mut rows: Vec<u128> = Vec::new();
    let mut i: usize = 0;
    while i < 128
        invariant
            i <= 128,
            rows@.len() == i,
            r1@.len() == 32 && r2@.len() == 32 && r3@.len() == 32,
            forall|j: int| 0 <= j < 32 ==> r1@[j] == u56_row_prefix(m1_rows(), j, 4),
            forall|j: int| 0 <= j < 32 ==> r2@[j] == u56_row_prefix(m2_rows(), j, 4),
            forall|j: int| 0 <= j < 32 ==> r3@[j] == u56_row_prefix(m3_rows(), j, 4),
            forall|j: int| 0 <= j < i ==> rows@[j] == u56_base()[j],
        decreases 128 - i,
    {
        let val: u128 = if i < 32 {
            r1[i]
        } else if i < 64 {
            r2[i - 32]
        } else if i < 96 {
            r3[i - 64]
        } else {
            0u128
        };
        rows.push(val);
        i += 1;
    }
    let base = BitMatrix128::from_rows(rows);
    proof {
        assert(base@ =~= u56_base());
    }
    let reduced = base.vskip(64, 68).vskip(32, 35).vskip(0, 1).hskip(88u128, 100u128).hskip(
        24u128,
        32u128,
    ).hskip(88u128, 128u128);
    let mut rows2: Vec<u128> = Vec::new();
    let mut i: usize = 0;
    while i < 128
        invariant
            i <= 128,
            rows2@.len() == i,
            reduced.wf(),
            reduced@ == hskip_rows128(
                hskip_rows128(
                    hskip_rows128(
                        vskip_rows128(
                            vskip_rows128(vskip_rows128(u56_base(), 64, 68), 32, 35),
                            0,
                            1,
                        ),
                        88,
                        100,
                    ),
                    24,
                    32,
                ),
                88,
                128,
            ),
            forall|j: int| 0 <= j < i ==> rows2@[j] == u56_design()[j],
        decreases 128 - i,
    {
        let val: u128 = if i < 88 {
            reduced.row(i)
        } else {
            1u128 << (i as u128)
        };
        rows2.push(val);
        i += 1;
    }
    let design = BitMatrix128::from_rows(rows2);
    proof {
        assert(design@ =~= u56_design());
    }
    design.inv()
}

/// Pack two 56-bit observations into the observation vector.
pub fn two_u56_to_vector(val1: u64, val2: u64) -> (r: u128)
    ensures
        r == two_u56_vector(val1, val2),
{
    let v0 = (val1 >> 32u64) as u128;
    let v1 = ((val1 << 32u64) >> 32u64) as u128;
    let v2 = (val2 >> 32u64) as u128;
    let v3 = ((val2 << 32u64) >> 36u64) as u128;
    let vector = v0 | (v1 << 24u128) | (v2 << 56u128) | (v3 << 80u128);
    proof {
        assert((vector << 40u128) >> 40u128 == vector & lowmask128(88)) by (bit_vector);
    }
    (vector << 40u128) >> 40u128
}

/// Unpack a 128-bit pre-image into the three registers.
pub fn vector_to_seed(vector: u128) -> (r: (u32, u32, u32))
    ensures
        r == seed_of_vector(vector),
{
    proof {
        assert((vector << 1u128) & 0xffff_ffffu128 < 0x1_0000_0000u128 && ((vector >> 31u128)
            << 3u128) & 0xffff_ffffu128 < 0x1_0000_0000u128 && (((vector >> 31u128) >> 29u128)
            << 4u128) & 0xffff_ffffu128 < 0x1_0000_0000u128) by (bit_vector);
    }
    let s1 = ((vector << 1u128) & 0xffff_ffffu128) as u32;
    let v2 = vector >> 31u128;
    let s2 = ((v2 << 3u128) & 0xffff_ffffu128) as u32;
    let v3 = v2 >> 29u128;
    let s3 = ((v3 << 4u128) & 0xffff_ffffu128) as u32;
    (s1, s2, s3)
}

/// Solver for a pair of 56-bit observations.
pub struct U56ToSeed {
    inv_matrix: BitMatrix128,
}

impl View for U56ToSeed {
    type V = Seq<u128>;

    closed spec fn view(&self) -> Seq<u128> {
        self.inv_matrix@
    }
}

impl U56ToSeed {
    /// The held matrix is a certified two-sided inverse of the design
    /// matrix.
    pub open spec fn wf(&self) -> bool {
        &&& self@.len() == 128
        &&& mat_mul128(u56_design(), self@) == eye128()
        &&& mat_mul128(self@, u56_design()) == eye128()
    }

    /// Build the solver.  `Err` is possible only with the design matrix
    /// proved singular, which it is not.
    pub fn new() -> (r: Result<Self, MatError>)
        ensures
            match r {
                Ok(s) => s.wf(),
                Err(_) => forall|b: Seq<u128>|
                    b.len() == 128 ==> mat_mul128(u56_design(), b) != eye128(),
            },
    {
        match build_inv_matrix() {
            Ok(inv_matrix) => Ok(U56ToSeed { inv_matrix }),
            Err(e) => Err(e),
        }
    }

    /// Map two 56-bit observations straight back to the state that emitted
    /// them: the packed vector times the inverse matrix, unpacked.  The
    /// high 8 bits of each observation must be clear.
    pub fn solve(&self, val1: u64, val2: u64) -> (r: (u32, u32, u32))
        requires
            self.wf(),
            val1 >> 56u64 == 0,
            val2 >> 56u64 == 0,
        ensures
            r == seed_of_vector(vec_mul128(two_u56_vector(val1, val2), self@)),
    {
        let vector = two_u56_to_vector(val1, val2);
        let out_vector = self.inv_matrix.vec_mul(vector);
        vector_to_seed(out_vector)
    }
}

} // verus!
