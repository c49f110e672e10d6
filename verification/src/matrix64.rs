//! Square bit-matrices of order 64 over GF(2).
//!
//! A matrix is a sequence of 64 rows, each a `u64`; row `i` bit `j` is the
//! (i, j) entry.  Addition is XOR.  The product of a vector `v` and a
//! matrix is the XOR of the rows selected by the bits of `v`; the product
//! of two matrices applies that action to every row of the left factor.

use vstd::prelude::*;

use crate::matrix::Error;
use crate::matrix::XorShiftOp;

verus! {

/// Bit `i` of `v`.
pub open spec fn bit64(v: u64, i: u64) -> bool {
    (v >> i) & 1 == 1
}

/// The `n` lowest bits, set.
pub open spec fn lowmask64(n: u64) -> u64 {
    if n >= 64 {
        0xffff_ffff_ffff_ffffu64
    } else {
        ((1u64 << n) - 1) as u64
    }
}

/// Bits `s..e`, set.
pub open spec fn range_mask64(s: u64, e: u64) -> u64 {
    lowmask64(e) & !lowmask64(s)
}

/// XOR of the first `n` rows selected by the low `n` bits of `v`.
pub open spec fn vm_prefix64(v: u64, rows: Seq<u64>, n: int) -> u64
    decreases n,
{
    if n <= 0 {
        0u64
    } else {
        vm_prefix64(v, rows, n - 1) ^ (if bit64(v, (n - 1) as u64) {
            rows[n - 1]
        } else {
            0u64
        })
    }
}

/// The product `v * M`: XOR of the rows of `M` selected by the bits of `v`.
pub open spec fn vec_mul64(v: u64, rows: Seq<u64>) -> u64 {
    vm_prefix64(v, rows, rows.len() as int)
}

/// Row `i` of the identity matrix is `1 << i`.
pub open spec fn eye64() -> Seq<u64> {
    Seq::new(64, |i: int| 1u64 << (i as u64))
}

pub open spec fn zero_rows64() -> Seq<u64> {
    Seq::new(64, |i: int| 0u64)
}

/// Matrix product: row `i` of the result is `a[i] * b`.
pub open spec fn mat_mul64(a: Seq<u64>, b: Seq<u64>) -> Seq<u64> {
    Seq::new(a.len(), |i: int| vec_mul64(a[i], b))
}

/// `m` to the `n`-th power under `mat_mul64`.
pub open spec fn mat_pow64(m: Seq<u64>, n: nat) -> Seq<u64>
    decreases n,
{
    if n == 0 {
        eye64()
    } else {
        mat_mul64(mat_pow64(m, (n - 1) as nat), m)
    }
}

pub open spec fn and_rows64(rows: Seq<u64>, mask: u64) -> Seq<u64> {
    Seq::new(rows.len(), |i: int| rows[i] & mask)
}

pub open spec fn xor_rows64(a: Seq<u64>, b: Seq<u64>) -> Seq<u64> {
    Seq::new(a.len(), |i: int| a[i] ^ b[i])
}

/// Shift every row left: shifts the column coordinate up.
pub open spec fn shl_rows64(rows: Seq<u64>, k: u64) -> Seq<u64> {
    Seq::new(rows.len(), |i: int| rows[i] << k)
}

/// Shift every row right: shifts the column coordinate down.
pub open spec fn shr_rows64(rows: Seq<u64>, k: u64) -> Seq<u64> {
    Seq::new(rows.len(), |i: int| rows[i] >> k)
}

/// Slide the rows down by `m`; the top `m` rows become zero.
pub open spec fn shd_rows64(rows: Seq<u64>, m: int) -> Seq<u64> {
    Seq::new(rows.len(), |i: int| if i < m { 0u64 } else { rows[i - m] })
}

/// Slide the rows up by `m`; the bottom `m` rows become zero.
pub open spec fn shu_rows64(rows: Seq<u64>, m: int) -> Seq<u64> {
    Seq::new(rows.len(), |i: int| if i + m < rows.len() { rows[i + m] } else { 0u64 })
}

/// Delete rows `s..e`, sliding the higher rows down and zero-filling the top.
pub open spec fn vskip_rows64(rows: Seq<u64>, s: int, e: int) -> Seq<u64> {
    Seq::new(
        rows.len(),
        |i: int|
            if i < s {
                rows[i]
            } else if i + (e - s) < rows.len() {
                rows[i + (e - s)]
            } else {
                0u64
            },
    )
}

/// Delete column bits `s..e` of one row, compacting the higher bits down.
pub open spec fn hskip_bits64(v: u64, s: u64, e: u64) -> u64 {
    if e >= 64 {
        v & lowmask64(s)
    } else {
        (v & lowmask64(s)) | ((v >> e) << s)
    }
}

/// Delete columns `s..e`, compacting the higher columns down.
pub open spec fn hskip_rows64(rows: Seq<u64>, s: u64, e: u64) -> Seq<u64> {
    Seq::new(rows.len(), |i: int| hskip_bits64(rows[i], s, e))
}

/// XOR is associative and commutative, with unit 0, and distributes over AND.
pub proof fn lemma_xor_basics64()
    by (bit_vector)
    ensures
        forall|a: u64| #[trigger] (a ^ 0u64) == a,
        forall|a: u64| #[trigger] (0u64 ^ a) == a,
        forall|a: u64, b: u64| #[trigger] (a ^ b) == (b ^ a),
        forall|a: u64, b: u64, c: u64| #[trigger] ((a ^ b) ^ c) == a ^ (b ^ c),
        forall|a: u64| #[trigger] (a ^ a) == 0u64,
        forall|a: u64| #[trigger] (a & 0xffff_ffff_ffff_ffffu64) == a,
        forall|a: u64| #[trigger] (a & 0u64) == 0u64,
        forall|a: u64, b: u64, m: u64| #[trigger] ((a ^ b) & m) == (a & m) ^ (b & m),
        forall|a: u64, b: u64, c: u64| #[trigger] ((a ^ b) ^ (c ^ b)) == a ^ c,
{
}

/// A restricted set of XOR and AND facts whose triggers cannot chain into
/// each other; for proofs where the associativity and commutativity
/// quantifiers of `lemma_xor_basics64` would be too eager.
pub proof fn lemma_xor_mini64()
    by (bit_vector)
    ensures
        forall|a: u64| #[trigger] (a ^ 0u64) == a,
        forall|a: u64| #[trigger] (0u64 ^ a) == a,
        forall|a: u64| #[trigger] (a & 0u64) == 0u64,
        forall|a: u64| #[trigger] (a & 0xffff_ffff_ffff_ffffu64) == a,
        forall|a: u64, b: u64| #[trigger] ((a ^ b) ^ b) == a,
        forall|a: u64, b: u64, c: u64| #[trigger] ((a ^ b) ^ (c ^ b)) == a ^ c,
{
}

/// How single bits behave under XOR, zero and unit vectors.
pub proof fn lemma_bit_facts64()
    by (bit_vector)
    ensures
        forall|x: u64, y: u64, i: u64|
            i < 64 ==> #[trigger] bit64(x ^ y, i) == (bit64(x, i) != bit64(y, i)),
        forall|i: u64| i < 64 ==> !bit64(0u64, i),
        forall|i: u64, j: u64| i < 64 && j < 64 ==> (#[trigger] bit64(1u64 << i, j) == (i == j)),
        forall|x: u64, m: u64, i: u64|
            i < 64 ==> #[trigger] bit64(x & m, i) == (bit64(x, i) && bit64(m, i)),
{
}

/// Splitting the low `n` bits of `v` into the low `n - 1` bits and bit `n - 1`.
proof fn lemma_lowmask_step64(v: u64, n: u64)
    by (bit_vector)
    requires
        1 <= n <= 64,
    ensures
        (v & lowmask64(n)) == ((v & lowmask64((n - 1) as u64)) ^ (if bit64(v, (n - 1) as u64) {
            1u64 << ((n - 1) as u64)
        } else {
            0u64
        })),
{
}

/// The vector-matrix product is GF(2)-linear in the vector.
pub proof fn lemma_vm_prefix_xor_vec64(x: u64, y: u64, rows: Seq<u64>, n: int)
    requires
        0 <= n <= 64,
    ensures
        vm_prefix64(x ^ y, rows, n) == vm_prefix64(x, rows, n) ^ vm_prefix64(y, rows, n),
    decreases n,
{
    lemma_xor_basics64();
    lemma_bit_facts64();
    if n > 0 {
        lemma_vm_prefix_xor_vec64(x, y, rows, n - 1);
    }
}

/// The zero vector selects no rows.
pub proof fn lemma_vm_prefix_zero64(rows: Seq<u64>, n: int)
    requires
        0 <= n <= 64,
    ensures
        vm_prefix64(0u64, rows, n) == 0u64,
    decreases n,
{
    lemma_xor_basics64();
    lemma_bit_facts64();
    if n > 0 {
        lemma_vm_prefix_zero64(rows, n - 1);
    }
}

/// A unit vector selects a single row.
pub proof fn lemma_vm_prefix_unit64(i: u64, rows: Seq<u64>, n: int)
    requires
        i < 64,
        0 <= n <= 64,
    ensures
        vm_prefix64(1u64 << i, rows, n) == if i < n { rows[i as int] } else { 0u64 },
    decreases n,
{
    lemma_xor_basics64();
    lemma_bit_facts64();
    if n > 0 {
        lemma_vm_prefix_unit64(i, rows, n - 1);
    }
}

/// Multiplying by the identity returns the low `n` bits of the vector.
proof fn lemma_vm_prefix_eye64(v: u64, n: int)
    requires
        0 <= n <= 64,
    ensures
        vm_prefix64(v, eye64(), n) == v & lowmask64(n as u64),
    decreases n,
{
    lemma_xor_basics64();
    if n == 0 {
        assert(v & lowmask64(0) == 0u64) by (bit_vector);
    } else {
        lemma_vm_prefix_eye64(v, n - 1);
        lemma_lowmask_step64(v, n as u64);
    }
}

/// `v * I == v`.
pub proof fn lemma_vec_mul_eye64(v: u64)
    ensures
        vec_mul64(v, eye64()) == v,
{
    lemma_xor_basics64();
    lemma_vm_prefix_eye64(v, 64);
    assert(v & lowmask64(64) == v);
}

/// `(1 << i) * m == m[i]`.
pub proof fn lemma_vec_mul_unit64(i: u64, rows: Seq<u64>)
    requires
        i < 64,
        rows.len() == 64,
    ensures
        vec_mul64(1u64 << i, rows) == rows[i as int],
{
    lemma_vm_prefix_unit64(i, rows, 64);
}

/// The vector action of a matrix product is the composed action:
/// `(v * a) * b == v * (a * b)`.
proof fn lemma_vm_prefix_assoc64(v: u64, a: Seq<u64>, b: Seq<u64>, n: int)
    requires
        0 <= n <= a.len(),
        a.len() <= 64,
        b.len() == 64,
    ensures
        vm_prefix64(v, mat_mul64(a, b), n) == vec_mul64(vm_prefix64(v, a, n), b),
    decreases n,
{
    lemma_xor_basics64();
    if n == 0 {
        lemma_vm_prefix_zero64(b, 64);
    } else {
        lemma_vm_prefix_assoc64(v, a, b, n - 1);
        if bit64(v, (n - 1) as u64) {
            lemma_vm_prefix_xor_vec64(vm_prefix64(v, a, n - 1), a[n - 1], b, 64);
        } else {
            lemma_vm_prefix_xor_vec64(vm_prefix64(v, a, n - 1), 0u64, b, 64);
            lemma_vm_prefix_zero64(b, 64);
        }
    }
}

/// `(v * a) * b == v * (a * b)`.
pub proof fn lemma_vec_mul_assoc64(v: u64, a: Seq<u64>, b: Seq<u64>)
    requires
        a.len() == 64,
        b.len() == 64,
    ensures
        vec_mul64(vec_mul64(v, a), b) == vec_mul64(v, mat_mul64(a, b)),
{
    lemma_vm_prefix_assoc64(v, a, b, 64);
}

/// Matrix multiplication is associative.
pub proof fn lemma_mat_mul_assoc64(a: Seq<u64>, b: Seq<u64>, c: Seq<u64>)
    requires
        a.len() == 64,
        b.len() == 64,
        c.len() == 64,
    ensures
        mat_mul64(mat_mul64(a, b), c) == mat_mul64(a, mat_mul64(b, c)),
{
    assert forall|i: int| 0 <= i < 64 implies mat_mul64(mat_mul64(a, b), c)[i] == mat_mul64(
        a,
        mat_mul64(b, c),
    )[i] by {
        lemma_vec_mul_assoc64(a[i], b, c);
    }
    assert(mat_mul64(mat_mul64(a, b), c) =~= mat_mul64(a, mat_mul64(b, c)));
}

/// The identity matrix is a left and right unit for multiplication.
pub proof fn lemma_mat_mul_eye64(a: Seq<u64>)
    requires
        a.len() == 64,
    ensures
        mat_mul64(a, eye64()) == a,
        mat_mul64(eye64(), a) == a,
{
    assert forall|i: int| 0 <= i < 64 implies mat_mul64(a, eye64())[i] == a[i] by {
        lemma_vec_mul_eye64(a[i]);
    }
    assert forall|i: int| 0 <= i < 64 implies mat_mul64(eye64(), a)[i] == a[i] by {
        lemma_vec_mul_unit64(i as u64, a);
    }
    assert(mat_mul64(a, eye64()) =~= a);
    assert(mat_mul64(eye64(), a) =~= a);
}

/// Powers keep the matrix order.
pub proof fn lemma_mat_pow_len64(m: Seq<u64>, n: nat)
    ensures
        mat_pow64(m, n).len() == 64,
    decreases n,
{
    if n > 0 {
        lemma_mat_pow_len64(m, (n - 1) as nat);
    }
}

/// `m * m^k == m^(k + 1)`.
pub proof fn lemma_mat_pow_left64(m: Seq<u64>, k: nat)
    requires
        m.len() == 64,
    ensures
        mat_mul64(m, mat_pow64(m, k)) == mat_pow64(m, k + 1),
    decreases k,
{
    lemma_mat_pow_len64(m, k);
    if k == 0 {
        lemma_mat_mul_eye64(m);
    } else {
        lemma_mat_pow_len64(m, (k - 1) as nat);
        lemma_mat_pow_left64(m, (k - 1) as nat);
        lemma_mat_mul_assoc64(m, mat_pow64(m, (k - 1) as nat), m);
    }
}

/// `(m * m)^k == m^(2k)`.
pub proof fn lemma_mat_pow_square64(m: Seq<u64>, k: nat)
    requires
        m.len() == 64,
    ensures
        mat_pow64(mat_mul64(m, m), k) == mat_pow64(m, 2 * k),
    decreases k,
{
    if k > 0 {
        lemma_mat_pow_square64(m, (k - 1) as nat);
        lemma_mat_pow_len64(m, (2 * k - 2) as nat);
        lemma_mat_mul_assoc64(mat_pow64(m, (2 * k - 2) as nat), m, m);
        assert(mat_pow64(m, 2 * k) == mat_mul64(mat_pow64(m, (2 * k - 1) as nat), m));
        assert(mat_pow64(m, (2 * k - 1) as nat) == mat_mul64(mat_pow64(m, (2 * k - 2) as nat), m));
    }
}

/// The mask implied by an operation alone: the bits that survive it.
pub open spec fn xs_default_mask64(op: XorShiftOp) -> u64 {
    match op {
        XorShiftOp::Ident => 0xffff_ffff_ffff_ffffu64,
        XorShiftOp::Shl(k) => 0xffff_ffff_ffff_ffffu64 >> (k as u64),
        XorShiftOp::Shr(k) => 0xffff_ffff_ffff_ffffu64 << (k as u64),
    }
}

/// The matrix of one decomposition item: the identity restricted to the
/// mask (the item's own, or the operation's default), then column-shifted.
pub open spec fn xs_item_rows64(mask: Option<u64>, op: XorShiftOp) -> Seq<u64> {
    let m = match mask {
        Some(m) => m,
        None => xs_default_mask64(op),
    };
    match op {
        XorShiftOp::Ident => and_rows64(eye64(), m),
        XorShiftOp::Shl(k) => shl_rows64(and_rows64(eye64(), m), (k as u64)),
        XorShiftOp::Shr(k) => shr_rows64(and_rows64(eye64(), m), (k as u64)),
    }
}

/// The matrix a decomposition stands for: the XOR of its items' matrices.
pub open spec fn xs_reconstruct64(items: Seq<(Option<u64>, XorShiftOp)>) -> Seq<u64>
    decreases items.len(),
{
    if items.len() == 0 {
        zero_rows64()
    } else {
        xor_rows64(
            xs_reconstruct64(items.drop_last()),
            xs_item_rows64(items.last().0, items.last().1),
        )
    }
}

/// A unit bit against a run mask, and unit bits under column shifts.
proof fn lemma_xs_bits64(r: u64, ii: u64, last: u64, d: u64)
    by (bit_vector)
    requires
        ii < 64,
        1 <= last,
        ii + last <= 64,
        r < 64,
    ensures
        ((1u64 << r) & ((0xffff_ffff_ffff_ffffu64 >> ((64 - last) as u64)) << ii)) == (if ii <= r && r < ii
            + last {
            1u64 << r
        } else {
            0u64
        }),
        r + d < 64 ==> ((1u64 << r) << d) == (1u64 << ((r + d) as u64)),
        d <= r ==> ((1u64 << r) >> d) == (1u64 << ((r - d) as u64)),
        (0u64 << d) == 0u64,
        (0u64 >> d) == 0u64,
{
}

/// Clearing the diagonal bit of a row whose lower bits are already clear
/// clears one more low bit.
proof fn lemma_xs_clear_step64(v: u64, jj: u64)
    by (bit_vector)
    requires
        jj < 64,
    ensures
        v & lowmask64(jj) == 0 && (v >> jj) & 1 == 1 ==> (v ^ (1u64 << jj)) & lowmask64(
            (jj + 1) as u64,
        ) == 0,
        v & lowmask64(jj) == 0 && (v >> jj) & 1 != 1 ==> v & lowmask64((jj + 1) as u64) == 0,
{
}

/// The result of XORing row `src` into row `dst`.
pub open spec fn rowxor64(m: Seq<u64>, dst: int, src: int) -> Seq<u64> {
    m.update(dst, m[dst] ^ m[src])
}

/// The elementary matrix of that row operation.
pub open spec fn exor64(dst: int, src: int) -> Seq<u64> {
    eye64().update(dst, (1u64 << (dst as u64)) ^ (1u64 << (src as u64)))
}

/// The result of swapping rows `i` and `j`.
pub open spec fn swapped64(m: Seq<u64>, i: int, j: int) -> Seq<u64> {
    m.update(i, m[j]).update(j, m[i])
}

/// The elementary matrix of the swap.
pub open spec fn eswap64(i: int, j: int) -> Seq<u64> {
    eye64().update(i, 1u64 << (j as u64)).update(j, 1u64 << (i as u64))
}

/// Left-multiplying by the elementary XOR matrix performs the row
/// operation.
proof fn lemma_exor_action64(m: Seq<u64>, d: int, s: int)
    requires
        m.len() == 64,
        0 <= d < 64,
        0 <= s < 64,
        d != s,
    ensures
        mat_mul64(exor64(d, s), m) == rowxor64(m, d, s),
{
    let e = exor64(d, s);
    assert forall|k: int| 0 <= k < 64 implies mat_mul64(e, m)[k] == rowxor64(m, d, s)[k] by {
        if k == d {
            lemma_vm_prefix_xor_vec64(1u64 << (d as u64), 1u64 << (s as u64), m, 64);
            lemma_vec_mul_unit64(d as u64, m);
            lemma_vec_mul_unit64(s as u64, m);
        } else {
            lemma_vec_mul_unit64(k as u64, m);
        }
    }
    assert(mat_mul64(e, m) =~= rowxor64(m, d, s));
}

/// The elementary XOR matrix is its own inverse.
proof fn lemma_exor_self64(d: int, s: int)
    requires
        0 <= d < 64,
        0 <= s < 64,
        d != s,
    ensures
        mat_mul64(exor64(d, s), exor64(d, s)) == eye64(),
{
    let e = exor64(d, s);
    lemma_exor_action64(e, d, s);
    lemma_xor_mini64();
    assert(rowxor64(e, d, s) =~= eye64());
}

/// Left-multiplying by the elementary swap matrix swaps the rows.
proof fn lemma_eswap_action64(m: Seq<u64>, i: int, j: int)
    requires
        m.len() == 64,
        0 <= i < 64,
        0 <= j < 64,
    ensures
        mat_mul64(eswap64(i, j), m) == swapped64(m, i, j),
{
    let e = eswap64(i, j);
    assert forall|k: int| 0 <= k < 64 implies mat_mul64(e, m)[k] == swapped64(m, i, j)[k] by {
        if k == j {
            lemma_vec_mul_unit64(i as u64, m);
        } else if k == i {
            lemma_vec_mul_unit64(j as u64, m);
        } else {
            lemma_vec_mul_unit64(k as u64, m);
        }
    }
    assert(mat_mul64(e, m) =~= swapped64(m, i, j));
}

/// The elementary swap matrix is its own inverse.
proof fn lemma_eswap_self64(i: int, j: int)
    requires
        0 <= i < 64,
        0 <= j < 64,
    ensures
        mat_mul64(eswap64(i, j), eswap64(i, j)) == eye64(),
{
    let e = eswap64(i, j);
    lemma_eswap_action64(e, i, j);
    assert(swapped64(e, i, j) =~= eye64());
}

/// A row operation on a matrix with a certified right inverse leaves a
/// matrix with a certified right inverse: the elementary matrix, its own
/// inverse, is folded into the certificate from the right.
proof fn lemma_rowxor_keeps_inverse64(a: Seq<u64>, b: Seq<u64>, d: int, s: int)
    requires
        a.len() == 64,
        b.len() == 64,
        0 <= d < 64,
        0 <= s < 64,
        d != s,
        mat_mul64(a, b) == eye64(),
    ensures
        mat_mul64(rowxor64(a, d, s), mat_mul64(b, exor64(d, s))) == eye64(),
{
    let e = exor64(d, s);
    lemma_exor_action64(a, d, s);
    lemma_mat_mul_assoc64(e, a, mat_mul64(b, e));
    lemma_mat_mul_assoc64(a, b, e);
    lemma_mat_mul_eye64(e);
    lemma_exor_self64(d, s);
}

/// The same, for a swap of two rows.
proof fn lemma_swap_keeps_inverse64(a: Seq<u64>, b: Seq<u64>, i: int, j: int)
    requires
        a.len() == 64,
        b.len() == 64,
        0 <= i < 64,
        0 <= j < 64,
        mat_mul64(a, b) == eye64(),
    ensures
        mat_mul64(swapped64(a, i, j), mat_mul64(b, eswap64(i, j))) == eye64(),
{
    let e = eswap64(i, j);
    lemma_eswap_action64(a, i, j);
    lemma_mat_mul_assoc64(e, a, mat_mul64(b, e));
    lemma_mat_mul_assoc64(a, b, e);
    lemma_mat_mul_eye64(e);
    lemma_eswap_self64(i, j);
}

/// Every row of a matrix with a certified right inverse is nonzero.
proof fn lemma_right_invertible_rows_nonzero64(a: Seq<u64>, b: Seq<u64>, j: int)
    requires
        a.len() == 64,
        b.len() == 64,
        0 <= j < 64,
        mat_mul64(a, b) == eye64(),
    ensures
        a[j] != 0u64,
{
    if a[j] == 0u64 {
        lemma_vm_prefix_zero64(b, 64);
        assert(mat_mul64(a, b)[j] == vec_mul64(a[j], b));
        let ju = j as u64;
        lemma_bit_facts64();
        assert(bit64(1u64 << ju, ju));
        assert(!bit64(0u64, ju));
    }
}

/// Mask bookkeeping for one step of Gauss-Jordan elimination.
proof fn lemma_elim_bits64(v: u64, w: u64, c: u64, k: u64)
    by (bit_vector)
    requires
        c < 64,
        k < 64,
    ensures
        v & lowmask64(0) == 0,
        v & lowmask64(c) == 0 && w & lowmask64(c) == 0 ==> (v ^ w) & lowmask64(c) == 0,
        v & lowmask64(c) == 0 && (v >> c) & 1 != 1 ==> v & lowmask64((c + 1) as u64) == 0,
        v & lowmask64(c) == 0 && (v >> c) & 1 == 1 ==> v & lowmask64((c + 1) as u64) == 1u64 << c,
        (v >> c) & 1 == 1 && (w >> c) & 1 == 1 ==> ((v ^ w) >> c) & 1 != 1,
        v & lowmask64(c) == (1u64 << k) && w & lowmask64(c) == 0 ==> (v ^ w) & lowmask64(c) == (
        1u64 << k),
        v & lowmask64(c) == (1u64 << k) && (v >> c) & 1 != 1 ==> v & lowmask64((c + 1) as u64) == (
        1u64 << k),
{
}

/// A nonzero vector that the matrix maps to zero rules out any right
/// inverse: were `a * b == I`, multiplying the vector through both sides
/// would make it zero and itself at once.
pub proof fn lemma_left_kernel_singular64(a: Seq<u64>, u: u64)
    requires
        a.len() == 64,
        u != 0u64,
        vec_mul64(u, a) == 0u64,
    ensures
        forall|b: Seq<u64>| b.len() == 64 ==> mat_mul64(a, b) != eye64(),
{
    assert forall|b: Seq<u64>| b.len() == 64 implies mat_mul64(a, b) != eye64() by {
        if mat_mul64(a, b) == eye64() {
            lemma_vec_mul_assoc64(u, a, b);
            lemma_vm_prefix_zero64(b, 64);
            lemma_vec_mul_eye64(u);
            assert(false);
        }
    }
}

/// A GF(2) square bit-matrix of order 64: 64 rows, each a `u64`.
pub struct BitMatrix64 {
    rows: Vec<u64>,
}

impl View for BitMatrix64 {
    type V = Seq<u64>;

    closed spec fn view(&self) -> Seq<u64> {
        self.rows@
    }
}

impl Clone for BitMatrix64 {
    fn clone(&self) -> (r: Self)
        ensures
            r@ == self@,
    {
        let mut rows: Vec<u64> = Vec::new();
        let mut i: usize = 0;
        while i < self.rows.len()
            invariant
                i <= self.rows@.len(),
                rows@ == self.rows@.take(i as int),
            decreases self.rows@.len() - i,
        {
            rows.push(self.rows[i]);
            i += 1;
        }
        proof {
            assert(rows@ =~= self.rows@);
        }
        BitMatrix64 { rows }
    }
}

impl BitMatrix64 {
    /// A matrix holds exactly 64 rows.
    pub open spec fn wf(&self) -> bool {
        self@.len() == 64
    }

    /// Row `i`.
    pub fn row(&self, i: usize) -> (r: u64)
        requires
            self.wf(),
            i < 64,
        ensures
            r == self@[i as int],
    {
        self.rows[i]
    }

    /// A matrix made of the given 64 rows.
    pub fn from_rows(rows: Vec<u64>) -> (r: Self)
        requires
            rows@.len() == 64,
        ensures
            r.wf(),
            r@ == rows@,
    {
        BitMatrix64 { rows }
    }

    /// The all-zero matrix.
    pub fn zero() -> (r: Self)
        ensures
            r.wf(),
            r@ == zero_rows64(),
    {
        let mut rows: Vec<u64> = Vec::new();
        let mut i: usize = 0;
        while i < 64
            invariant
                i <= 64,
                rows@.len() == i,
                forall|j: int| 0 <= j < i ==> rows@[j] == 0u64,
            decreases 64 - i,
        {
            rows.push(0u64);
            i += 1;
        }
        let r = BitMatrix64 { rows };
        proof {
            assert(r@ =~= zero_rows64());
        }
        r
    }

    /// The identity matrix.
    pub fn eye() -> (r: Self)
        ensures
            r.wf(),
            r@ == eye64(),
    {
        let mut rows: Vec<u64> = Vec::new();
        let mut i: usize = 0;
        while i < 64
            invariant
                i <= 64,
                rows@.len() == i,
                forall|j: int| 0 <= j < i ==> rows@[j] == 1u64 << (j as u64),
            decreases 64 - i,
        {
            rows.push(1u64 << (i as u64));
            i += 1;
        }
        let r = BitMatrix64 { rows };
        proof {
            assert(r@ =~= eye64());
        }
        r
    }

    /// The matrix of the map `v -> v >> bits`: the identity, column-shifted.
    pub fn shr(bits: u64) -> (r: Self)
        requires
            bits < 64,
        ensures
            r.wf(),
            r@ == shr_rows64(eye64(), bits),
    {
        Self::eye().shift_right(bits)
    }

    /// The matrix of the map `v -> v << bits`: the identity, column-shifted.
    pub fn shl(bits: u64) -> (r: Self)
        requires
            bits < 64,
        ensures
            r.wf(),
            r@ == shl_rows64(eye64(), bits),
    {
        Self::eye().shift_left(bits)
    }

    /// AND every row with `mask`: restricts the domain bits of the map.
    pub fn and(&self, mask: u64) -> (r: Self)
        requires
            self.wf(),
        ensures
            r.wf(),
            r@ == and_rows64(self@, mask),
    {
        let mut rows: Vec<u64> = Vec::new();
        let mut i: usize = 0;
        while i < 64
            invariant
                self.wf(),
                i <= 64,
                rows@.len() == i,
                forall|j: int| 0 <= j < i ==> rows@[j] == self@[j] & mask,
            decreases 64 - i,
        {
            rows.push(self.rows[i] & mask);
            i += 1;
        }
        let r = BitMatrix64 { rows };
        proof {
            assert(r@ =~= and_rows64(self@, mask));
        }
        r
    }

    /// Componentwise XOR of two matrices.
    pub fn xor(&self, other: &Self) -> (r: Self)
        requires
            self.wf(),
            other.wf(),
        ensures
            r.wf(),
            r@ == xor_rows64(self@, other@),
    {
        let mut rows: Vec<u64> = Vec::new();
        let mut i: usize = 0;
        while i < 64
            invariant
                self.wf(),
                other.wf(),
                i <= 64,
                rows@.len() == i,
                forall|j: int| 0 <= j < i ==> rows@[j] == (self@[j] ^ other@[j]),
            decreases 64 - i,
        {
            rows.push(self.rows[i] ^ other.rows[i]);
            i += 1;
        }
        let r = BitMatrix64 { rows };
        proof {
            assert(r@ =~= xor_rows64(self@, other@));
        }
        r
    }

    /// Shift every row left by `bits`: shifts the column coordinate up.
    pub fn shift_left(&self, bits: u64) -> (r: Self)
        requires
            self.wf(),
            bits < 64,
        ensures
            r.wf(),
            r@ == shl_rows64(self@, bits),
    {
        let mut rows: Vec<u64> = Vec::new();
        let mut i: usize = 0;
        while i < 64
            invariant
                self.wf(),
                bits < 64,
                i <= 64,
                rows@.len() == i,
                forall|j: int| 0 <= j < i ==> rows@[j] == (self@[j] << bits),
            decreases 64 - i,
        {
            rows.push(self.rows[i] << bits);
            i += 1;
        }
        let r = BitMatrix64 { rows };
        proof {
            assert(r@ =~= shl_rows64(self@, bits));
        }
        r
    }

    /// Shift every row right by `bits`: shifts the column coordinate down.
    pub fn shift_right(&self, bits: u64) -> (r: Self)
        requires
            self.wf(),
            bits < 64,
        ensures
            r.wf(),
            r@ == shr_rows64(self@, bits),
    {
        let mut rows: Vec<u64> = Vec::new();
        let mut i: usize = 0;
        while i < 64
            invariant
                self.wf(),
                bits < 64,
                i <= 64,
                rows@.len() == i,
                forall|j: int| 0 <= j < i ==> rows@[j] == (self@[j] >> bits),
            decreases 64 - i,
        {
            rows.push(self.rows[i] >> bits);
            i += 1;
        }
        let r = BitMatrix64 { rows };
        proof {
            assert(r@ =~= shr_rows64(self@, bits));
        }
        r
    }

    /// Slide the rows down by `much`; the vacated rows are zero.
    pub fn shd(&self, much: usize) -> (r: Self)
        requires
            self.wf(),
            much <= 64,
        ensures
            r.wf(),
            r@ == shd_rows64(self@, much as int),
    {
        let mut rows: Vec<u64> = Vec::new();
        let mut i: usize = 0;
        while i < 64
            invariant
                self.wf(),
                much <= 64,
                i <= 64,
                rows@.len() == i,
                forall|j: int| 0 <= j < i ==> rows@[j] == shd_rows64(self@, much as int)[j],
            decreases 64 - i,
        {
            let val = if i < much {
                0u64
            } else {
                self.rows[i - much]
            };
            rows.push(val);
            i += 1;
        }
        let r = BitMatrix64 { rows };
        proof {
            assert(r@ =~= shd_rows64(self@, much as int));
        }
        r
    }

    /// Slide the rows up by `much`; the vacated rows are zero.
    pub fn shu(&self, much: usize) -> (r: Self)
        requires
            self.wf(),
            much <= 64,
        ensures
            r.wf(),
            r@ == shu_rows64(self@, much as int),
    {
        let mut rows: Vec<u64> = Vec::new();
        let mut i: usize = 0;
        while i < 64
            invariant
                self.wf(),
                much <= 64,
                i <= 64,
                rows@.len() == i,
                forall|j: int| 0 <= j < i ==> rows@[j] == shu_rows64(self@, much as int)[j],
            decreases 64 - i,
        {
            let val = if i + much < 64 {
                self.rows[i + much]
            } else {
                0u64
            };
            rows.push(val);
            i += 1;
        }
        let r = BitMatrix64 { rows };
        proof {
            assert(r@ =~= shu_rows64(self@, much as int));
        }
        r
    }

    /// Delete rows `s..e`, sliding the higher rows down; used to drop
    /// under-constrained input bits.
    pub fn vskip(&self, s: usize, e: usize) -> (r: Self)
        requires
            self.wf(),
            s <= e <= 64,
        ensures
            r.wf(),
            r@ == vskip_rows64(self@, s as int, e as int),
    {
        let mut rows: Vec<u64> = Vec::new();
        let mut i: usize = 0;
        while i < 64
            invariant
                self.wf(),
                s <= e <= 64,
                i <= 64,
                rows@.len() == i,
                forall|j: int| 0 <= j < i ==> rows@[j] == vskip_rows64(self@, s as int, e as int)[j],
            decreases 64 - i,
        {
            let val = if i < s {
                self.rows[i]
            } else if i + (e - s) < 64 {
                self.rows[i + (e - s)]
            } else {
                0u64
            };
            rows.push(val);
            i += 1;
        }
        let r = BitMatrix64 { rows };
        proof {
            assert(r@ =~= vskip_rows64(self@, s as int, e as int));
        }
        r
    }

    /// Keep only column bits `s..e` of every row, clearing the others.
    pub fn select(&self, s: u64, e: u64) -> (r: Self)
        requires
            self.wf(),
            s <= e <= 64,
        ensures
            r.wf(),
            r@ == and_rows64(self@, range_mask64(s, e)),
    {
        let lo = lowmask_exec(s);
        let hi = lowmask_exec(e);
        self.and(hi & !lo)
    }

    /// Delete column bits `s..e` of every row, compacting the higher columns
    /// down; used to drop under-constrained output bits.
    pub fn hskip(&self, s: u64, e: u64) -> (r: Self)
        requires
            self.wf(),
            s <= e <= 64,
        ensures
            r.wf(),
            r@ == hskip_rows64(self@, s, e),
    {
        let lo = lowmask_exec(s);
        let mut rows: Vec<u64> = Vec::new();
        let mut i: usize = 0;
        while i < 64
            invariant
                self.wf(),
                s <= e <= 64,
                lo == lowmask64(s),
                i <= 64,
                rows@.len() == i,
                forall|j: int| 0 <= j < i ==> rows@[j] == hskip_bits64(self@[j], s, e),
            decreases 64 - i,
        {
            let v = self.rows[i];
            let val = if e >= 64 {
                v & lo
            } else {
                (v & lo) | ((v >> e) << s)
            };
            rows.push(val);
            i += 1;
        }
        let r = BitMatrix64 { rows };
        proof {
            assert(r@ =~= hskip_rows64(self@, s, e));
        }
        r
    }

    /// The product `v * self`.
    pub fn vec_mul(&self, v: u64) -> (r: u64)
        requires
            self.wf(),
        ensures
            r == vec_mul64(v, self@),
    {
        let mut out: u64 = 0;
        let mut i: usize = 0;
        while i < 64
            invariant
                self.wf(),
                i <= 64,
                out == vm_prefix64(v, self@, i as int),
            decreases 64 - i,
        {
            proof {
                lemma_xor_basics64();
            }
            if (v >> (i as u64)) & 1 == 1 {
                out = out ^ self.rows[i];
            }
            i += 1;
        }
        out
    }

    /// Matrix product: row `i` of the result is `self[i] * other`.
    pub fn mul(&self, other: &Self) -> (r: Self)
        requires
            self.wf(),
            other.wf(),
        ensures
            r.wf(),
            r@ == mat_mul64(self@, other@),
    {
        let mut rows: Vec<u64> = Vec::new();
        let mut i: usize = 0;
        while i < 64
            invariant
                self.wf(),
                other.wf(),
                i <= 64,
                rows@.len() == i,
                forall|j: int| 0 <= j < i ==> rows@[j] == vec_mul64(self@[j], other@),
            decreases 64 - i,
        {
            rows.push(other.vec_mul(self.rows[i]));
            i += 1;
        }
        let r = BitMatrix64 { rows };
        proof {
            assert(r@ =~= mat_mul64(self@, other@));
        }
        r
    }

    /// `self` to the `n`-th power, by binary exponentiation.
    pub fn pow(&self, n: usize) -> (r: Self)
        requires
            self.wf(),
        ensures
            r.wf(),
            r@ == mat_pow64(self@, n as nat),
    {
        let mut base = self.clone();
        let mut out = Self::eye();
        let mut p = n;
        proof {
            lemma_mat_pow_len64(self@, n as nat);
            lemma_mat_mul_eye64(mat_pow64(self@, n as nat));
        }
        while p > 0
            invariant
                base.wf(),
                out.wf(),
                mat_mul64(out@, mat_pow64(base@, p as nat)) == mat_pow64(self@, n as nat),
            decreases p,
        {
            proof {
                lemma_usize_shift_half(p);
                lemma_mat_pow_len64(base@, (p / 2) as nat);
                lemma_mat_pow_len64(base@, p as nat);
                lemma_mat_pow_square64(base@, (p / 2) as nat);
                if p % 2 == 1 {
                    lemma_mat_pow_left64(base@, (p - 1) as nat);
                    lemma_mat_pow_len64(base@, (p - 1) as nat);
                    lemma_mat_mul_assoc64(out@, base@, mat_pow64(base@, (p - 1) as nat));
                }
            }
            if p & 1 == 1 {
                out = out.mul(&base);
            }
            base = base.mul(&base);
            p = p >> 1;
        }
        proof {
            lemma_mat_mul_eye64(out@);
        }
        out
    }

    /// Invert by Gauss-Jordan elimination over GF(2).  The candidate
    /// accumulates the row operations applied to a working copy, so every
    /// working row is the candidate row times the input; a ghost inverse of
    /// the accumulated operations witnesses that no candidate row is zero.
    /// If every column yields a pivot the working copy ends as the
    /// identity, which proves the candidate a left inverse, and the right
    /// side is certified by multiplication.  Otherwise some working row
    /// ends zero, and its nonzero candidate row is a left-kernel vector:
    /// `Err` is returned only with the matrix proved singular.
    #[verifier::rlimit(100)]
    pub fn inv(&self) -> (r: Result<Self, Error>)
        requires
            self.wf(),
        ensures
            match r {
                Ok(m) => m.wf() && mat_mul64(self@, m@) == eye64() && mat_mul64(m@, self@)
                    == eye64(),
                Err(Error::MatrixNotInvertible { stuck_at_col }) => stuck_at_col < 64 && forall|
                    b: Seq<u64>,
                |
                    b.len() == 64 ==> mat_mul64(self@, b) != eye64(),
            },
    {
        let mut tmp = self.clone();
        let mut inv = Self::eye();
        let ghost mut invb: Seq<u64> = eye64();
        let mut rank: usize = 0;
        let mut stuck: usize = 64;
        proof {
            lemma_mat_mul_eye64(eye64());
            assert forall|j: int| 0 <= j < 64 implies tmp@[j] == vec_mul64(
                #[trigger] inv@[j],
                self@,
            ) by {
                lemma_vec_mul_unit64(j as u64, self@);
            }
            assert forall|j: int| 0 <= j < 64 implies #[trigger] tmp@[j] & lowmask64(0)
                == 0u64 by {
                lemma_elim_bits64(tmp@[j], 0u64, 0u64, 0u64);
            }
        }
        let mut c: usize = 0;
        while c < 64
            invariant
                self.wf(),
                tmp.wf(),
                inv.wf(),
                rank <= c <= 64,
                invb.len() == 64,
                mat_mul64(inv@, invb) == eye64(),
                forall|j: int| 0 <= j < 64 ==> tmp@[j] == vec_mul64(#[trigger] inv@[j], self@),
                forall|j: int|
                    rank <= j < 64 ==> #[trigger] tmp@[j] & lowmask64(c as u64) == 0u64,
                stuck <= 64,
                stuck < 64 ==> rank < c,
                stuck == 64 ==> rank == c && forall|k: int|
                    0 <= k < rank ==> #[trigger] tmp@[k] & lowmask64(c as u64) == (1u64 << (
                    k as u64)),
            decreases 64 - c,
        {
            // find the first row at or below `rank` with bit c set
            let mut pos: usize = 64;
            let mut jj: usize = rank;
            while jj < 64
                invariant
                    tmp.wf(),
                    rank <= jj <= 64,
                    c < 64,
                    pos == 64 || (rank <= pos < 64 && (tmp@[pos as int] >> (c as u64)) & 1u64
                        == 1u64),
                    pos == 64 ==> forall|j: int|
                        rank <= j < jj ==> (#[trigger] tmp@[j] >> (c as u64)) & 1u64 != 1u64,
                decreases 64 - jj,
            {
                if pos == 64 && (tmp.rows[jj] >> (c as u64)) & 1 == 1 {
                    pos = jj;
                }
                jj += 1;
            }
            if pos == 64 {
                // no pivot: the column is skipped and the rank falls short
                if stuck == 64 {
                    stuck = c;
                }
                proof {
                    assert forall|j: int| rank <= j < 64 implies #[trigger] tmp@[j] & lowmask64(
                        (c + 1) as u64,
                    ) == 0u64 by {
                        lemma_elim_bits64(tmp@[j], 0u64, c as u64, 0u64);
                    }
                }
            } else {
                // move the pivot row up to row `rank`
                let ghost tmp_s = tmp@;
                let ghost inv_s = inv@;
                let a = tmp.rows[rank];
                let b = tmp.rows[pos];
                tmp.rows[rank] = b;
                tmp.rows[pos] = a;
                let a = inv.rows[rank];
                let b = inv.rows[pos];
                inv.rows[rank] = b;
                inv.rows[pos] = a;
                proof {
                    assert(tmp@ =~= swapped64(tmp_s, rank as int, pos as int));
                    assert(inv@ =~= swapped64(inv_s, rank as int, pos as int));
                    lemma_swap_keeps_inverse64(inv_s, invb, rank as int, pos as int);
                    invb = mat_mul64(invb, eswap64(rank as int, pos as int));
                    assert forall|j: int| 0 <= j < 64 implies tmp@[j] == vec_mul64(
                        #[trigger] inv@[j],
                        self@,
                    ) by {
                        if j == rank as int {
                            assert(inv@[j] == inv_s[pos as int]);
                        } else if j == pos as int {
                            assert(inv@[j] == inv_s[rank as int]);
                        }
                    }
                }
                // clear bit c from every other row
                let mut jj: usize = 0;
                while jj < 64
                    invariant
                        self.wf(),
                        tmp.wf(),
                        inv.wf(),
                        rank <= c < 64,
                        jj <= 64,
                        invb.len() == 64,
                        mat_mul64(inv@, invb) == eye64(),
                        forall|j: int|
                            0 <= j < 64 ==> tmp@[j] == vec_mul64(#[trigger] inv@[j], self@),
                        tmp@[rank as int] & lowmask64(c as u64) == 0u64,
                        (tmp@[rank as int] >> (c as u64)) & 1u64 == 1u64,
                        forall|j: int|
                            rank <= j < 64 ==> #[trigger] tmp@[j] & lowmask64(c as u64) == 0u64,
                        forall|j: int|
                            0 <= j < jj && j != rank ==> (#[trigger] tmp@[j] >> (c as u64)) & 1u64
                                != 1u64,
                        stuck <= 64,
                        stuck < 64 ==> rank < c,
                        stuck == 64 ==> rank == c && forall|k: int|
                            0 <= k < rank ==> #[trigger] tmp@[k] & lowmask64(c as u64) == (1u64 << (
                            k as u64)),
                    decreases 64 - jj,
                {
                    if jj != rank && (tmp.rows[jj] >> (c as u64)) & 1 == 1 {
                        let ghost tmp_s = tmp@;
                        let ghost inv_s = inv@;
                        let piv = tmp.rows[rank];
                        tmp.rows[jj] = tmp.rows[jj] ^ piv;
                        let pivi = inv.rows[rank];
                        inv.rows[jj] = inv.rows[jj] ^ pivi;
                        proof {
                            assert(tmp@ =~= rowxor64(tmp_s, jj as int, rank as int));
                            assert(inv@ =~= rowxor64(inv_s, jj as int, rank as int));
                            lemma_rowxor_keeps_inverse64(inv_s, invb, jj as int, rank as int);
                            invb = mat_mul64(invb, exor64(jj as int, rank as int));
                            lemma_vm_prefix_xor_vec64(
                                inv_s[jj as int],
                                inv_s[rank as int],
                                self@,
                                64,
                            );
                            lemma_elim_bits64(
                                tmp_s[jj as int],
                                tmp_s[rank as int],
                                c as u64,
                                jj as u64,
                            );
                        }
                    }
                    jj += 1;
                }
                proof {
                    // the pivot row joins the solved block; every other row
                    // extends its cleared mask past column c
                    lemma_elim_bits64(tmp@[rank as int], 0u64, c as u64, 0u64);
                    assert forall|j: int| rank + 1 <= j < 64 implies #[trigger] tmp@[j]
                        & lowmask64((c + 1) as u64) == 0u64 by {
                        lemma_elim_bits64(tmp@[j], 0u64, c as u64, 0u64);
                    }
                    if stuck == 64 {
                        assert forall|k: int| 0 <= k < rank implies #[trigger] tmp@[k] & lowmask64(
                            (c + 1) as u64,
                        ) == (1u64 << (k as u64)) by {
                            lemma_elim_bits64(tmp@[k], 0u64, c as u64, k as u64);
                        }
                    }
                }
                rank += 1;
            }
            c += 1;
        }
        if rank < 64 {
            // a zero working row remains: its candidate row, nonzero by the
            // ghost certificate, maps to zero through the input
            proof {
                lemma_xor_basics64();
                assert(tmp@[rank as int] & lowmask64(64) == 0u64);
                assert(tmp@[rank as int] == 0u64);
                lemma_right_invertible_rows_nonzero64(inv@, invb, rank as int);
                lemma_left_kernel_singular64(self@, inv@[rank as int]);
            }
            return Err(Error::MatrixNotInvertible { stuck_at_col: stuck });
        }
        proof {
            // every column held a pivot: the working copy is the identity,
            // so the candidate is a left inverse
            lemma_xor_basics64();
            assert forall|k: int| 0 <= k < 64 implies vec_mul64(#[trigger] inv@[k], self@)
                == eye64()[k] by {
                assert(tmp@[k] & lowmask64(64) == (1u64 << (k as u64)));
            }
            assert(mat_mul64(inv@, self@) =~= eye64());
        }
        // certify the right side row by row; a failing row yields a
        // left-kernel vector through the proven left inverse
        let mut i: usize = 0;
        while i < 64
            invariant
                self.wf(),
                inv.wf(),
                i <= 64,
                mat_mul64(inv@, self@) == eye64(),
                forall|j: int| 0 <= j < i ==> vec_mul64(self@[j], inv@) == eye64()[j],
            decreases 64 - i,
        {
            let row = inv.vec_mul(self.rows[i]);
            if row != 1u64 << (i as u64) {
                proof {
                    let w = row ^ (1u64 << (i as u64));
                    lemma_xor_basics64();
                    lemma_vm_prefix_xor_vec64(row, 1u64 << (i as u64), self@, 64);
                    lemma_vec_mul_assoc64(self@[i as int], inv@, self@);
                    lemma_vec_mul_eye64(self@[i as int]);
                    lemma_vec_mul_unit64(i as u64, self@);
                    assert(vec_mul64(w, self@) == 0u64);
                    lemma_left_kernel_singular64(self@, w);
                }
                return Err(Error::MatrixNotInvertible { stuck_at_col: i });
            }
            i += 1;
        }
        proof {
            assert(mat_mul64(self@, inv@) =~= eye64());
        }
        Ok(inv)
    }

    /// Decompose the matrix into masked XOR-shift items that together
    /// compute the same linear map: scan the diagonals, clear each maximal
    /// run found, and emit one item for it.  The XOR of the items' matrices
    /// reconstructs the matrix exactly.
    #[verifier::rlimit(100)]
    pub fn xorshift_form(&self) -> (r: Vec<(Option<u64>, XorShiftOp)>)
        requires
            self.wf(),
        ensures
            xs_reconstruct64(r@) == self@,
    {
        let mut tmp = self.clone();
        let mut result: Vec<(Option<u64>, XorShiftOp)> = Vec::new();
        proof {
            lemma_xor_mini64();
            assert(xor_rows64(xs_reconstruct64(result@), tmp@) =~= self@);
        }
        let mut ii: usize = 0;
        while ii < 64
            invariant
                tmp.wf(),
                self.wf(),
                ii <= 64,
                forall|r: int| 0 <= r < ii ==> tmp@[r] == 0u64,
                xor_rows64(xs_reconstruct64(result@), tmp@) == self@,
            decreases 64 - ii,
        {
            proof {
                lemma_xor_mini64();
                assert(lowmask64(0) == 0u64) by (bit_vector);
            }
            let mut jj: usize = 0;
            while jj < 64
                invariant
                    tmp.wf(),
                    self.wf(),
                    ii < 64,
                    jj <= 64,
                    forall|r: int| 0 <= r < ii ==> tmp@[r] == 0u64,
                    tmp@[ii as int] & lowmask64(jj as u64) == 0u64,
                    xor_rows64(xs_reconstruct64(result@), tmp@) == self@,
                decreases 64 - jj,
            {
                proof {
                    lemma_xor_mini64();
                    lemma_xs_clear_step64(tmp@[ii as int], jj as u64);
                }
                if (tmp.row(ii) >> (jj as u64)) & 1 == 1 {
                    let len = 64 - (if ii > jj {
                        ii
                    } else {
                        jj
                    });
                    // measure the maximal run along the diagonal
                    let mut last: usize = 1;
                    while last < len && (tmp.row(ii + last) >> ((jj + last) as u64)) & 1 == 1
                        invariant
                            tmp.wf(),
                            ii < 64,
                            jj < 64,
                            len == 64 - (if ii > jj {
                                ii as int
                            } else {
                                jj as int
                            }),
                            1 <= last <= len,
                        decreases len - last,
                    {
                        last += 1;
                    }
                    // clear the run
                    let ghost tmp0 = tmp@;
                    let ghost res0 = result@;
                    let mut kk: usize = 0;
                    while kk < last
                        invariant
                            tmp.wf(),
                            ii < 64,
                            jj < 64,
                            1 <= last,
                            ii + last <= 64,
                            jj + last <= 64,
                            kk <= last,
                            tmp0.len() == 64,
                            forall|r: int|
                                0 <= r < 64 && !(ii <= r < ii + kk) ==> tmp@[r] == tmp0[r],
                            forall|r: int|
                                ii <= r < ii + kk ==> tmp@[r] == (tmp0[r] ^ (1u64 << ((jj + (r
                                    - (ii as int))) as u64))),
                        decreases last - kk,
                    {
                        let v = tmp.row(ii + kk);
                        tmp.rows[ii + kk] = v ^ (1u64 << ((jj + kk) as u64));
                        kk += 1;
                    }
                    // emit the item for the run
                    let op = if ii == jj {
                        XorShiftOp::Ident
                    } else if ii < jj {
                        XorShiftOp::Shl((jj - ii) as u32)
                    } else {
                        XorShiftOp::Shr((ii - jj) as u32)
                    };
                    let mask = (0xffff_ffff_ffff_ffffu64 >> ((64 - last) as u64)) << (ii as u64);
                    let dm = match op {
                        XorShiftOp::Ident => 0xffff_ffff_ffff_ffffu64,
                        XorShiftOp::Shl(k) => 0xffff_ffff_ffff_ffffu64 >> (k as u64),
                        XorShiftOp::Shr(k) => 0xffff_ffff_ffff_ffffu64 << (k as u64),
                    };
                    let entry = if mask == dm {
                        (None, op)
                    } else {
                        (Some(mask), op)
                    };
                    result.push(entry);
                    proof {
                        lemma_xor_mini64();
                        assert(result@.drop_last() =~= res0);
                        let item = xs_item_rows64(entry.0, entry.1);
                        let diff = Seq::new(
                            64,
                            |r: int|
                                if ii <= r < ii + last {
                                    1u64 << ((jj + (r - (ii as int))) as u64)
                                } else {
                                    0u64
                                },
                        );
                        assert forall|r: int| 0 <= r < 64 implies item[r] == diff[r] by {
                            lemma_xs_bits64(r as u64, ii as u64, last as u64, (if ii < jj {
                                (jj - ii) as u64
                            } else {
                                (ii - jj) as u64
                            }));
                        }
                        assert forall|r: int| 0 <= r < 64 implies tmp@[r] == (tmp0[r]
                            ^ item[r]) by {
                            assert(item[r] == diff[r]);
                        }
                        assert(xs_reconstruct64(result@) == xor_rows64(
                            xs_reconstruct64(res0),
                            item,
                        ));
                        assert forall|r: int| 0 <= r < 64 implies xor_rows64(
                            xs_reconstruct64(result@),
                            tmp@,
                        )[r] == self@[r] by {
                            assert(xor_rows64(xs_reconstruct64(res0), tmp0)[r] == self@[r]);
                            assert(xs_reconstruct64(res0).len() == 64);
                            let a = xs_reconstruct64(res0)[r];
                            let b = item[r];
                            let c = tmp0[r];
                            assert(((a ^ b) ^ (c ^ b)) == a ^ c);
                        }
                        assert(xor_rows64(xs_reconstruct64(result@), tmp@) =~= self@);
                        lemma_xs_clear_step64(tmp0[ii as int], jj as u64);
                        assert(tmp@[ii as int] == tmp0[ii as int] ^ (1u64 << (jj as u64)));
                    }
                }
                jj += 1;
            }
            proof {
                lemma_xor_mini64();
                assert(tmp@[ii as int] & lowmask64(64) == 0u64);
                assert(tmp@[ii as int] == 0u64);
            }
            ii += 1;
        }
        proof {
            lemma_xor_mini64();
            assert(xs_reconstruct64(result@).len() == 64);
            assert forall|r: int| 0 <= r < 64 implies xs_reconstruct64(result@)[r] == self@[r] by {
                assert(xor_rows64(xs_reconstruct64(result@), tmp@)[r] == self@[r]);
            }
            assert(xs_reconstruct64(result@) =~= self@);
        }
        result
    }
}

/// The `n` lowest bits, set; the executable form of `lowmask64`.
fn lowmask_exec(n: u64) -> (r: u64)
    ensures
        r == lowmask64(n),
{
    if n >= 64 {
        0xffff_ffff_ffff_ffffu64
    } else {
        proof {
            assert(1u64 << n >= 1) by (bit_vector)
                requires
                    n < 64,
            ;
        }
        (1u64 << n) - 1
    }
}

/// Shifting a `usize` right by one halves it; its lowest bit is the parity.
proof fn lemma_usize_shift_half(p: usize)
    by (bit_vector)
    ensures
        (p & 1) == p % 2,
        (p >> 1) == p / 2,
{
}

/// Shift bookkeeping behind `lemma_eye_shl4_invertible64`: how unit rows
/// and the rows of the candidate inverse behave under the 4-bit shift.
proof fn lemma_shl4_bits64(iu: u64)
    by (bit_vector)
    requires
        iu < 64,
    ensures
        iu < 60 ==> (1u64 << iu) << 4 == 1u64 << ((iu + 4) as u64),
        iu < 60 ==> (0x1111_1111_1111_1111u64 << iu) ^ (0x1111_1111_1111_1111u64 << ((iu
            + 4) as u64)) == 1u64 << iu,
        iu >= 60 ==> (1u64 << iu) << 4 == 0u64,
        iu >= 60 ==> (0x1111_1111_1111_1111u64 << iu) ^ 0u64 == 1u64 << iu,
{
}

/// `I ^ shl(4)` is invertible: the XOR of the powers of the nilpotent
/// shift is a right inverse.  With `Err` of `inv` proving singularity,
/// this rules `Err` out on that matrix, so `inv` must return `Ok` there.
pub proof fn lemma_eye_shl4_invertible64()
    ensures
        exists|b: Seq<u64>|
            b.len() == 64 && mat_mul64(xor_rows64(eye64(), shl_rows64(eye64(), 4)), b) == eye64(),
{
    let a = xor_rows64(eye64(), shl_rows64(eye64(), 4));
    let b = Seq::new(64, |i: int| 0x1111_1111_1111_1111u64 << (i as u64));
    assert forall|i: int| 0 <= i < 64 implies mat_mul64(a, b)[i] == eye64()[i] by {
        let iu = i as u64;
        assert(a[i] == (1u64 << iu) ^ ((1u64 << iu) << 4));
        lemma_shl4_bits64(iu);
        lemma_vm_prefix_xor_vec64(1u64 << iu, (1u64 << iu) << 4, b, 64);
        lemma_vec_mul_unit64(iu, b);
        if i < 60 {
            lemma_vec_mul_unit64((iu + 4) as u64, b);
        } else {
            lemma_vm_prefix_zero64(b, 64);
        }
    }
    assert(mat_mul64(a, b) =~= eye64());
}

/// A certified inverse undoes the matrix's vector action:
/// `(v * a) * b == v` whenever `a * b == I`.
pub proof fn lemma_inverse_cancels64(v: u64, a: Seq<u64>, b: Seq<u64>)
    requires
        a.len() == 64,
        b.len() == 64,
        mat_mul64(a, b) == eye64(),
    ensures
        vec_mul64(vec_mul64(v, a), b) == v,
{
    lemma_vec_mul_assoc64(v, a, b);
    lemma_vec_mul_eye64(v);
}

} // verus!
