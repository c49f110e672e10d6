//! Square bit-matrices of order 32 over GF(2).
//!
//! A matrix is a sequence of 32 rows, each a `u32`; row `i` bit `j` is the
//! (i, j) entry.  Addition is XOR.  The product of a vector `v` and a
//! matrix is the XOR of the rows selected by the bits of `v`; the product
//! of two matrices applies that action to every row of the left factor.

use vstd::prelude::*;

use crate::matrix::Error;
use crate::matrix::XorShiftOp;

verus! {

/// Bit `i` of `v`.
pub open spec fn bit32(v: u32, i: u32) -> bool {
    (v >> i) & 1 == 1
}

/// The `n` lowest bits, set.
pub open spec fn lowmask32(n: u32) -> u32 {
    if n >= 32 {
        0xffff_ffffu32
    } else {
        ((1u32 << n) - 1) as u32
    }
}

/// Bits `s..e`, set.
pub open spec fn range_mask32(s: u32, e: u32) -> u32 {
    lowmask32(e) & !lowmask32(s)
}

/// XOR of the first `n` rows selected by the low `n` bits of `v`.
pub open spec fn vm_prefix32(v: u32, rows: Seq<u32>, n: int) -> u32
    decreases n,
{
    if n <= 0 {
        0u32
    } else {
        vm_prefix32(v, rows, n - 1) ^ (if bit32(v, (n - 1) as u32) {
            rows[n - 1]
        } else {
            0u32
        })
    }
}

/// The product `v * M`: XOR of the rows of `M` selected by the bits of `v`.
pub open spec fn vec_mul32(v: u32, rows: Seq<u32>) -> u32 {
    vm_prefix32(v, rows, rows.len() as int)
}

/// Row `i` of the identity matrix is `1 << i`.
pub open spec fn eye32() -> Seq<u32> {
    Seq::new(32, |i: int| 1u32 << (i as u32))
}

pub open spec fn zero_rows32() -> Seq<u32> {
    Seq::new(32, |i: int| 0u32)
}

/// Matrix product: row `i` of the result is `a[i] * b`.
pub open spec fn mat_mul32(a: Seq<u32>, b: Seq<u32>) -> Seq<u32> {
    Seq::new(a.len(), |i: int| vec_mul32(a[i], b))
}

/// `m` to the `n`-th power under `mat_mul32`.
pub open spec fn mat_pow32(m: Seq<u32>, n: nat) -> Seq<u32>
    decreases n,
{
    if n == 0 {
        eye32()
    } else {
        mat_mul32(mat_pow32(m, (n - 1) as nat), m)
    }
}

pub open spec fn and_rows32(rows: Seq<u32>, mask: u32) -> Seq<u32> {
    Seq::new(rows.len(), |i: int| rows[i] & mask)
}

pub open spec fn xor_rows32(a: Seq<u32>, b: Seq<u32>) -> Seq<u32> {
    Seq::new(a.len(), |i: int| a[i] ^ b[i])
}

/// Shift every row left: shifts the column coordinate up.
pub open spec fn shl_rows32(rows: Seq<u32>, k: u32) -> Seq<u32> {
    Seq::new(rows.len(), |i: int| rows[i] << k)
}

/// Shift every row right: shifts the column coordinate down.
pub open spec fn shr_rows32(rows: Seq<u32>, k: u32) -> Seq<u32> {
    Seq::new(rows.len(), |i: int| rows[i] >> k)
}

/// Slide the rows down by `m`; the top `m` rows become zero.
pub open spec fn shd_rows32(rows: Seq<u32>, m: int) -> Seq<u32> {
    Seq::new(rows.len(), |i: int| if i < m { 0u32 } else { rows[i - m] })
}

/// Slide the rows up by `m`; the bottom `m` rows become zero.
pub open spec fn shu_rows32(rows: Seq<u32>, m: int) -> Seq<u32> {
    Seq::new(rows.len(), |i: int| if i + m < rows.len() { rows[i + m] } else { 0u32 })
}

/// Delete rows `s..e`, sliding the higher rows down and zero-filling the top.
pub open spec fn vskip_rows32(rows: Seq<u32>, s: int, e: int) -> Seq<u32> {
    Seq::new(
        rows.len(),
        |i: int|
            if i < s {
                rows[i]
            } else if i + (e - s) < rows.len() {
                rows[i + (e - s)]
            } else {
                0u32
            },
    )
}

/// Delete column bits `s..e` of one row, compacting the higher bits down.
pub open spec fn hskip_bits32(v: u32, s: u32, e: u32) -> u32 {
    if e >= 32 {
        v & lowmask32(s)
    } else {
        (v & lowmask32(s)) | ((v >> e) << s)
    }
}

/// Delete columns `s..e`, compacting the higher columns down.
pub open spec fn hskip_rows32(rows: Seq<u32>, s: u32, e: u32) -> Seq<u32> {
    Seq::new(rows.len(), |i: int| hskip_bits32(rows[i], s, e))
}

/// XOR is associative and commutative, with unit 0, and distributes over AND.
pub proof fn lemma_xor_basics32()
    by (bit_vector)
    ensures
        forall|a: u32| #[trigger] (a ^ 0u32) == a,
        forall|a: u32| #[trigger] (0u32 ^ a) == a,
        forall|a: u32, b: u32| #[trigger] (a ^ b) == (b ^ a),
        forall|a: u32, b: u32, c: u32| #[trigger] ((a ^ b) ^ c) == a ^ (b ^ c),
        forall|a: u32| #[trigger] (a ^ a) == 0u32,
        forall|a: u32| #[trigger] (a & 0xffff_ffffu32) == a,
        forall|a: u32| #[trigger] (a & 0u32) == 0u32,
        forall|a: u32| #[trigger] (0u32 & a) == 0u32,
        forall|a: u32, b: u32, m: u32| #[trigger] ((a ^ b) & m) == (a & m) ^ (b & m),
        forall|a: u32, b: u32, c: u32| #[trigger] ((a ^ b) ^ (c ^ b)) == a ^ c,
{
}

/// A restricted set of XOR and AND facts whose triggers cannot chain into
/// each other; for proofs where the associativity and commutativity
/// quantifiers of `lemma_xor_basics32` would be too eager.
pub proof fn lemma_xor_mini32()
    by (bit_vector)
    ensures
        forall|a: u32| #[trigger] (a ^ 0u32) == a,
        forall|a: u32| #[trigger] (0u32 ^ a) == a,
        forall|a: u32| #[trigger] (a & 0u32) == 0u32,
        forall|a: u32| #[trigger] (a & 0xffff_ffffu32) == a,
        forall|a: u32, b: u32| #[trigger] ((a ^ b) ^ b) == a,
        forall|a: u32, b: u32, c: u32| #[trigger] ((a ^ b) ^ (c ^ b)) == a ^ c,
{
}

/// How single bits behave under XOR, zero and unit vectors.
pub proof fn lemma_bit_facts32()
    by (bit_vector)
    ensures
        forall|x: u32, y: u32, i: u32|
            i < 32 ==> #[trigger] bit32(x ^ y, i) == (bit32(x, i) != bit32(y, i)),
        forall|i: u32| i < 32 ==> !bit32(0u32, i),
        forall|i: u32, j: u32| i < 32 && j < 32 ==> (#[trigger] bit32(1u32 << i, j) == (i == j)),
        forall|x: u32, m: u32, i: u32|
            i < 32 ==> #[trigger] bit32(x & m, i) == (bit32(x, i) && bit32(m, i)),
{
}

/// Splitting the low `n` bits of `v` into the low `n - 1` bits and bit `n - 1`.
pub proof fn lemma_lowmask_step32(v: u32, n: u32)
    by (bit_vector)
    requires
        1 <= n <= 32,
    ensures
        (v & lowmask32(n)) == ((v & lowmask32((n - 1) as u32)) ^ (if bit32(v, (n - 1) as u32) {
            1u32 << ((n - 1) as u32)
        } else {
            0u32
        })),
{
}

/// The vector-matrix product is GF(2)-linear in the vector.
pub proof fn lemma_vm_prefix_xor_vec32(x: u32, y: u32, rows: Seq<u32>, n: int)
    requires
        0 <= n <= 32,
    ensures
        vm_prefix32(x ^ y, rows, n) == vm_prefix32(x, rows, n) ^ vm_prefix32(y, rows, n),
    decreases n,
{
    lemma_xor_basics32();
    lemma_bit_facts32();
    if n > 0 {
        lemma_vm_prefix_xor_vec32(x, y, rows, n - 1);
    }
}

/// The zero vector selects no rows.
pub proof fn lemma_vm_prefix_zero32(rows: Seq<u32>, n: int)
    requires
        0 <= n <= 32,
    ensures
        vm_prefix32(0u32, rows, n) == 0u32,
    decreases n,
{
    lemma_xor_basics32();
    lemma_bit_facts32();
    if n > 0 {
        lemma_vm_prefix_zero32(rows, n - 1);
    }
}

/// A unit vector selects a single row.
pub proof fn lemma_vm_prefix_unit32(i: u32, rows: Seq<u32>, n: int)
    requires
        i < 32,
        0 <= n <= 32,
    ensures
        vm_prefix32(1u32 << i, rows, n) == if i < n { rows[i as int] } else { 0u32 },
    decreases n,
{
    lemma_xor_basics32();
    lemma_bit_facts32();
    if n > 0 {
        lemma_vm_prefix_unit32(i, rows, n - 1);
    }
}

/// Bits under a mask of the form `!0 << k`, and bits of a small value.
proof fn lemma_bit_mask_facts32()
    by (bit_vector)
    ensures
        forall|v: u32, k: u32, j: u32|
            k < 32 && j < 32 && j >= k ==> #[trigger] bit32(v & (0xffff_ffffu32 << k), j) == bit32(
                v,
                j,
            ),
        forall|v: u32, k: u32, j: u32|
            #![trigger bit32(v, j), 1u32 << k]
            k < 32 && j < 32 && j >= k && v < (1u32 << k) ==> !bit32(v, j),
{
}

/// Masking the rows of a matrix masks the product: `v * (m & mask) == (v * m) & mask`.
pub proof fn lemma_vm_prefix_and_rows32(v: u32, rows: Seq<u32>, mask: u32, n: int)
    requires
        0 <= n <= 32,
        n <= rows.len(),
    ensures
        vm_prefix32(v, and_rows32(rows, mask), n) == vm_prefix32(v, rows, n) & mask,
    decreases n,
{
    lemma_xor_basics32();
    if n > 0 {
        lemma_vm_prefix_and_rows32(v, rows, mask, n - 1);
        let x = vm_prefix32(v, rows, n - 1);
        let t = if bit32(v, (n - 1) as u32) {
            rows[n - 1]
        } else {
            0u32
        };
        assert((x ^ t) & mask == (x & mask) ^ (t & mask));
    }
}

/// `v * (a ^ b) == (v * a) ^ (v * b)`.
pub proof fn lemma_vm_prefix_xor_rows32(v: u32, a: Seq<u32>, b: Seq<u32>, n: int)
    requires
        0 <= n <= 32,
        n <= a.len(),
        n <= b.len(),
    ensures
        vm_prefix32(v, xor_rows32(a, b), n) == vm_prefix32(v, a, n) ^ vm_prefix32(v, b, n),
    decreases n,
{
    lemma_xor_basics32();
    if n > 0 {
        lemma_vm_prefix_xor_rows32(v, a, b, n - 1);
    }
}

/// When the first `k` rows of a matrix are the identity's and `v` has no
/// bits at or above `k`, the product leaves `v` unchanged.
pub proof fn lemma_vec_mul_low_eye32(v: u32, rows: Seq<u32>, k: u32)
    requires
        rows.len() == 32,
        k < 32,
        v < (1u32 << k),
        forall|j: int| 0 <= j < k ==> rows[j] == (1u32 << (j as u32)),
    ensures
        vec_mul32(v, rows) == v,
{
    lemma_bit_mask_facts32();
    lemma_vec_mul_eye32(v);
    assert forall|n: int| 0 <= n <= 32 implies vm_prefix32(v, rows, n) == vm_prefix32(
        v,
        eye32(),
        n,
    ) by {
        lemma_vm_prefix_low_eq32(v, rows, k, n);
    }
}

/// Helper for `lemma_vec_mul_low_eye32`: the two products agree prefix by prefix.
proof fn lemma_vm_prefix_low_eq32(v: u32, rows: Seq<u32>, k: u32, n: int)
    requires
        rows.len() == 32,
        k < 32,
        v < (1u32 << k),
        forall|j: int| 0 <= j < k ==> rows[j] == (1u32 << (j as u32)),
        0 <= n <= 32,
    ensures
        vm_prefix32(v, rows, n) == vm_prefix32(v, eye32(), n),
    decreases n,
{
    lemma_bit_mask_facts32();
    if n > 0 {
        lemma_vm_prefix_low_eq32(v, rows, k, n - 1);
    }
}

/// When the first `k` rows of a matrix are zero, bits below `k` of the
/// vector do not matter.
pub proof fn lemma_vec_mul_low_zero32(v: u32, rows: Seq<u32>, k: u32)
    requires
        rows.len() == 32,
        k < 32,
        forall|j: int| 0 <= j < k ==> rows[j] == 0u32,
    ensures
        vec_mul32(v & (0xffff_ffffu32 << k), rows) == vec_mul32(v, rows),
{
    lemma_vm_prefix_low_zero32(v, rows, k, 32);
}

/// Helper for `lemma_vec_mul_low_zero32`.
proof fn lemma_vm_prefix_low_zero32(v: u32, rows: Seq<u32>, k: u32, n: int)
    requires
        rows.len() == 32,
        k < 32,
        forall|j: int| 0 <= j < k ==> rows[j] == 0u32,
        0 <= n <= 32,
    ensures
        vm_prefix32(v & (0xffff_ffffu32 << k), rows, n) == vm_prefix32(v, rows, n),
    decreases n,
{
    lemma_xor_basics32();
    lemma_bit_mask_facts32();
    if n > 0 {
        lemma_vm_prefix_low_zero32(v, rows, k, n - 1);
    }
}

/// Multiplying by the identity returns the low `n` bits of the vector.
proof fn lemma_vm_prefix_eye32(v: u32, n: int)
    requires
        0 <= n <= 32,
    ensures
        vm_prefix32(v, eye32(), n) == v & lowmask32(n as u32),
    decreases n,
{
    lemma_xor_basics32();
    if n == 0 {
        assert(v & lowmask32(0) == 0u32) by (bit_vector);
    } else {
        lemma_vm_prefix_eye32(v, n - 1);
        lemma_lowmask_step32(v, n as u32);
    }
}

/// `v * (m & mask) == (v * m) & mask` at full width.
pub proof fn lemma_vec_mul_and_rows32(v: u32, rows: Seq<u32>, mask: u32)
    requires
        rows.len() == 32,
    ensures
        vec_mul32(v, and_rows32(rows, mask)) == vec_mul32(v, rows) & mask,
{
    lemma_vm_prefix_and_rows32(v, rows, mask, 32);
}

/// `v * (a ^ b) == (v * a) ^ (v * b)` at full width.
pub proof fn lemma_vec_mul_xor_rows32(v: u32, a: Seq<u32>, b: Seq<u32>)
    requires
        a.len() == 32,
        b.len() == 32,
    ensures
        vec_mul32(v, xor_rows32(a, b)) == vec_mul32(v, a) ^ vec_mul32(v, b),
{
    lemma_vm_prefix_xor_rows32(v, a, b, 32);
}

/// `(x ^ y) * m == (x * m) ^ (y * m)` at full width.
pub proof fn lemma_vec_mul_xor_vec32(x: u32, y: u32, rows: Seq<u32>)
    requires
        rows.len() == 32,
    ensures
        vec_mul32(x ^ y, rows) == vec_mul32(x, rows) ^ vec_mul32(y, rows),
{
    lemma_vm_prefix_xor_vec32(x, y, rows, 32);
}

/// `v * I == v`.
pub proof fn lemma_vec_mul_eye32(v: u32)
    ensures
        vec_mul32(v, eye32()) == v,
{
    lemma_xor_basics32();
    lemma_vm_prefix_eye32(v, 32);
    assert(v & lowmask32(32) == v);
}

/// `(1 << i) * m == m[i]`.
pub proof fn lemma_vec_mul_unit32(i: u32, rows: Seq<u32>)
    requires
        i < 32,
        rows.len() == 32,
    ensures
        vec_mul32(1u32 << i, rows) == rows[i as int],
{
    lemma_vm_prefix_unit32(i, rows, 32);
}

/// The vector action of a matrix product is the composed action:
/// `(v * a) * b == v * (a * b)`.
proof fn lemma_vm_prefix_assoc32(v: u32, a: Seq<u32>, b: Seq<u32>, n: int)
    requires
        0 <= n <= a.len(),
        a.len() <= 32,
        b.len() == 32,
    ensures
        vm_prefix32(v, mat_mul32(a, b), n) == vec_mul32(vm_prefix32(v, a, n), b),
    decreases n,
{
    lemma_xor_basics32();
    if n == 0 {
        lemma_vm_prefix_zero32(b, 32);
    } else {
        lemma_vm_prefix_assoc32(v, a, b, n - 1);
        if bit32(v, (n - 1) as u32) {
            lemma_vm_prefix_xor_vec32(vm_prefix32(v, a, n - 1), a[n - 1], b, 32);
        } else {
            lemma_vm_prefix_xor_vec32(vm_prefix32(v, a, n - 1), 0u32, b, 32);
            lemma_vm_prefix_zero32(b, 32);
        }
    }
}

/// `(v * a) * b == v * (a * b)`.
pub proof fn lemma_vec_mul_assoc32(v: u32, a: Seq<u32>, b: Seq<u32>)
    requires
        a.len() == 32,
        b.len() == 32,
    ensures
        vec_mul32(vec_mul32(v, a), b) == vec_mul32(v, mat_mul32(a, b)),
{
    lemma_vm_prefix_assoc32(v, a, b, 32);
}

/// Matrix multiplication is associative.
pub proof fn lemma_mat_mul_assoc32(a: Seq<u32>, b: Seq<u32>, c: Seq<u32>)
    requires
        a.len() == 32,
        b.len() == 32,
        c.len() == 32,
    ensures
        mat_mul32(mat_mul32(a, b), c) == mat_mul32(a, mat_mul32(b, c)),
{
    assert forall|i: int| 0 <= i < 32 implies mat_mul32(mat_mul32(a, b), c)[i] == mat_mul32(
        a,
        mat_mul32(b, c),
    )[i] by {
        lemma_vec_mul_assoc32(a[i], b, c);
    }
    assert(mat_mul32(mat_mul32(a, b), c) =~= mat_mul32(a, mat_mul32(b, c)));
}

/// The identity matrix is a left and right unit for multiplication.
pub proof fn lemma_mat_mul_eye32(a: Seq<u32>)
    requires
        a.len() == 32,
    ensures
        mat_mul32(a, eye32()) == a,
        mat_mul32(eye32(), a) == a,
{
    assert forall|i: int| 0 <= i < 32 implies mat_mul32(a, eye32())[i] == a[i] by {
        lemma_vec_mul_eye32(a[i]);
    }
    assert forall|i: int| 0 <= i < 32 implies mat_mul32(eye32(), a)[i] == a[i] by {
        lemma_vec_mul_unit32(i as u32, a);
    }
    assert(mat_mul32(a, eye32()) =~= a);
    assert(mat_mul32(eye32(), a) =~= a);
}

/// Powers keep the matrix order.
pub proof fn lemma_mat_pow_len32(m: Seq<u32>, n: nat)
    ensures
        mat_pow32(m, n).len() == 32,
    decreases n,
{
    if n > 0 {
        lemma_mat_pow_len32(m, (n - 1) as nat);
    }
}

/// `m * m^k == m^(k + 1)`.
pub proof fn lemma_mat_pow_left32(m: Seq<u32>, k: nat)
    requires
        m.len() == 32,
    ensures
        mat_mul32(m, mat_pow32(m, k)) == mat_pow32(m, k + 1),
    decreases k,
{
    lemma_mat_pow_len32(m, k);
    if k == 0 {
        lemma_mat_mul_eye32(m);
    } else {
        lemma_mat_pow_len32(m, (k - 1) as nat);
        lemma_mat_pow_left32(m, (k - 1) as nat);
        lemma_mat_mul_assoc32(m, mat_pow32(m, (k - 1) as nat), m);
    }
}

/// `(m * m)^k == m^(2k)`.
pub proof fn lemma_mat_pow_square32(m: Seq<u32>, k: nat)
    requires
        m.len() == 32,
    ensures
        mat_pow32(mat_mul32(m, m), k) == mat_pow32(m, 2 * k),
    decreases k,
{
    if k > 0 {
        lemma_mat_pow_square32(m, (k - 1) as nat);
        lemma_mat_pow_len32(m, (2 * k - 2) as nat);
        lemma_mat_mul_assoc32(mat_pow32(m, (2 * k - 2) as nat), m, m);
        assert(mat_pow32(m, 2 * k) == mat_mul32(mat_pow32(m, (2 * k - 1) as nat), m));
        assert(mat_pow32(m, (2 * k - 1) as nat) == mat_mul32(mat_pow32(m, (2 * k - 2) as nat), m));
    }
}

/// The mask implied by an operation alone: the bits that survive it.
pub open spec fn xs_default_mask32(op: XorShiftOp) -> u32 {
    match op {
        XorShiftOp::Ident => 0xffff_ffffu32,
        XorShiftOp::Shl(k) => 0xffff_ffffu32 >> k,
        XorShiftOp::Shr(k) => 0xffff_ffffu32 << k,
    }
}

/// The matrix of one decomposition item: the identity restricted to the
/// mask (the item's own, or the operation's default), then column-shifted.
pub open spec fn xs_item_rows32(mask: Option<u32>, op: XorShiftOp) -> Seq<u32> {
    let m = match mask {
        Some(m) => m,
        None => xs_default_mask32(op),
    };
    match op {
        XorShiftOp::Ident => and_rows32(eye32(), m),
        XorShiftOp::Shl(k) => shl_rows32(and_rows32(eye32(), m), k),
        XorShiftOp::Shr(k) => shr_rows32(and_rows32(eye32(), m), k),
    }
}

/// The matrix a decomposition stands for: the XOR of its items' matrices.
pub open spec fn xs_reconstruct32(items: Seq<(Option<u32>, XorShiftOp)>) -> Seq<u32>
    decreases items.len(),
{
    if items.len() == 0 {
        zero_rows32()
    } else {
        xor_rows32(
            xs_reconstruct32(items.drop_last()),
            xs_item_rows32(items.last().0, items.last().1),
        )
    }
}

/// A unit bit against a run mask, and unit bits under column shifts.
proof fn lemma_xs_bits32(r: u32, ii: u32, last: u32, d: u32)
    by (bit_vector)
    requires
        ii < 32,
        1 <= last,
        ii + last <= 32,
        r < 32,
    ensures
        ((1u32 << r) & ((0xffff_ffffu32 >> ((32 - last) as u32)) << ii)) == (if ii <= r && r < ii
            + last {
            1u32 << r
        } else {
            0u32
        }),
        r + d < 32 ==> ((1u32 << r) << d) == (1u32 << ((r + d) as u32)),
        d <= r ==> ((1u32 << r) >> d) == (1u32 << ((r - d) as u32)),
        (0u32 << d) == 0u32,
        (0u32 >> d) == 0u32,
{
}

/// Clearing the diagonal bit of a row whose lower bits are already clear
/// clears one more low bit.
proof fn lemma_xs_clear_step32(v: u32, jj: u32)
    by (bit_vector)
    requires
        jj < 32,
    ensures
        v & lowmask32(jj) == 0 && (v >> jj) & 1 == 1 ==> (v ^ (1u32 << jj)) & lowmask32(
            (jj + 1) as u32,
        ) == 0,
        v & lowmask32(jj) == 0 && (v >> jj) & 1 != 1 ==> v & lowmask32((jj + 1) as u32) == 0,
{
}

/// The result of XORing row `src` into row `dst`.
pub open spec fn rowxor32(m: Seq<u32>, dst: int, src: int) -> Seq<u32> {
    m.update(dst, m[dst] ^ m[src])
}

/// The elementary matrix of that row operation.
pub open spec fn exor32(dst: int, src: int) -> Seq<u32> {
    eye32().update(dst, (1u32 << (dst as u32)) ^ (1u32 << (src as u32)))
}

/// The result of swapping rows `i` and `j`.
pub open spec fn swapped32(m: Seq<u32>, i: int, j: int) -> Seq<u32> {
    m.update(i, m[j]).update(j, m[i])
}

/// The elementary matrix of the swap.
pub open spec fn eswap32(i: int, j: int) -> Seq<u32> {
    eye32().update(i, 1u32 << (j as u32)).update(j, 1u32 << (i as u32))
}

/// Left-multiplying by the elementary XOR matrix performs the row
/// operation.
proof fn lemma_exor_action32(m: Seq<u32>, d: int, s: int)
    requires
        m.len() == 32,
        0 <= d < 32,
        0 <= s < 32,
        d != s,
    ensures
        mat_mul32(exor32(d, s), m) == rowxor32(m, d, s),
{
    let e = exor32(d, s);
    assert forall|k: int| 0 <= k < 32 implies mat_mul32(e, m)[k] == rowxor32(m, d, s)[k] by {
        if k == d {
            lemma_vm_prefix_xor_vec32(1u32 << (d as u32), 1u32 << (s as u32), m, 32);
            lemma_vec_mul_unit32(d as u32, m);
            lemma_vec_mul_unit32(s as u32, m);
        } else {
            lemma_vec_mul_unit32(k as u32, m);
        }
    }
    assert(mat_mul32(e, m) =~= rowxor32(m, d, s));
}

/// The elementary XOR matrix is its own inverse.
proof fn lemma_exor_self32(d: int, s: int)
    requires
        0 <= d < 32,
        0 <= s < 32,
        d != s,
    ensures
        mat_mul32(exor32(d, s), exor32(d, s)) == eye32(),
{
    let e = exor32(d, s);
    lemma_exor_action32(e, d, s);
    lemma_xor_mini32();
    assert(rowxor32(e, d, s) =~= eye32());
}

/// Left-multiplying by the elementary swap matrix swaps the rows.
proof fn lemma_eswap_action32(m: Seq<u32>, i: int, j: int)
    requires
        m.len() == 32,
        0 <= i < 32,
        0 <= j < 32,
    ensures
        mat_mul32(eswap32(i, j), m) == swapped32(m, i, j),
{
    let e = eswap32(i, j);
    assert forall|k: int| 0 <= k < 32 implies mat_mul32(e, m)[k] == swapped32(m, i, j)[k] by {
        if k == j {
            lemma_vec_mul_unit32(i as u32, m);
        } else if k == i {
            lemma_vec_mul_unit32(j as u32, m);
        } else {
            lemma_vec_mul_unit32(k as u32, m);
        }
    }
    assert(mat_mul32(e, m) =~= swapped32(m, i, j));
}

/// The elementary swap matrix is its own inverse.
proof fn lemma_eswap_self32(i: int, j: int)
    requires
        0 <= i < 32,
        0 <= j < 32,
    ensures
        mat_mul32(eswap32(i, j), eswap32(i, j)) == eye32(),
{
    let e = eswap32(i, j);
    lemma_eswap_action32(e, i, j);
    assert(swapped32(e, i, j) =~= eye32());
}

/// A row operation on a matrix with a certified right inverse leaves a
/// matrix with a certified right inverse: the elementary matrix, its own
/// inverse, is folded into the certificate from the right.
proof fn lemma_rowxor_keeps_inverse32(a: Seq<u32>, b: Seq<u32>, d: int, s: int)
    requires
        a.len() == 32,
        b.len() == 32,
        0 <= d < 32,
        0 <= s < 32,
        d != s,
        mat_mul32(a, b) == eye32(),
    ensures
        mat_mul32(rowxor32(a, d, s), mat_mul32(b, exor32(d, s))) == eye32(),
{
    let e = exor32(d, s);
    lemma_exor_action32(a, d, s);
    lemma_mat_mul_assoc32(e, a, mat_mul32(b, e));
    lemma_mat_mul_assoc32(a, b, e);
    lemma_mat_mul_eye32(e);
    lemma_exor_self32(d, s);
}

/// The same, for a swap of two rows.
proof fn lemma_swap_keeps_inverse32(a: Seq<u32>, b: Seq<u32>, i: int, j: int)
    requires
        a.len() == 32,
        b.len() == 32,
        0 <= i < 32,
        0 <= j < 32,
        mat_mul32(a, b) == eye32(),
    ensures
        mat_mul32(swapped32(a, i, j), mat_mul32(b, eswap32(i, j))) == eye32(),
{
    let e = eswap32(i, j);
    lemma_eswap_action32(a, i, j);
    lemma_mat_mul_assoc32(e, a, mat_mul32(b, e));
    lemma_mat_mul_assoc32(a, b, e);
    lemma_mat_mul_eye32(e);
    lemma_eswap_self32(i, j);
}

/// Every row of a matrix with a certified right inverse is nonzero.
proof fn lemma_right_invertible_rows_nonzero32(a: Seq<u32>, b: Seq<u32>, j: int)
    requires
        a.len() == 32,
        b.len() == 32,
        0 <= j < 32,
        mat_mul32(a, b) == eye32(),
    ensures
        a[j] != 0u32,
{
    if a[j] == 0u32 {
        lemma_vm_prefix_zero32(b, 32);
        assert(mat_mul32(a, b)[j] == vec_mul32(a[j], b));
        let ju = j as u32;
        lemma_bit_facts32();
        assert(bit32(1u32 << ju, ju));
        assert(!bit32(0u32, ju));
    }
}

/// Mask bookkeeping for one step of Gauss-Jordan elimination.
proof fn lemma_elim_bits32(v: u32, w: u32, c: u32, k: u32)
    by (bit_vector)
    requires
        c < 32,
        k < 32,
    ensures
        v & lowmask32(0) == 0,
        v & lowmask32(c) == 0 && w & lowmask32(c) == 0 ==> (v ^ w) & lowmask32(c) == 0,
        v & lowmask32(c) == 0 && (v >> c) & 1 != 1 ==> v & lowmask32((c + 1) as u32) == 0,
        v & lowmask32(c) == 0 && (v >> c) & 1 == 1 ==> v & lowmask32((c + 1) as u32) == 1u32 << c,
        (v >> c) & 1 == 1 && (w >> c) & 1 == 1 ==> ((v ^ w) >> c) & 1 != 1,
        v & lowmask32(c) == (1u32 << k) && w & lowmask32(c) == 0 ==> (v ^ w) & lowmask32(c) == (
        1u32 << k),
        v & lowmask32(c) == (1u32 << k) && (v >> c) & 1 != 1 ==> v & lowmask32((c + 1) as u32) == (
        1u32 << k),
{
}

/// A nonzero vector that the matrix maps to zero rules out any right
/// inverse: were `a * b == I`, multiplying the vector through both sides
/// would make it zero and itself at once.
pub proof fn lemma_left_kernel_singular32(a: Seq<u32>, u: u32)
    requires
        a.len() == 32,
        u != 0u32,
        vec_mul32(u, a) == 0u32,
    ensures
        forall|b: Seq<u32>| b.len() == 32 ==> mat_mul32(a, b) != eye32(),
{
    assert forall|b: Seq<u32>| b.len() == 32 implies mat_mul32(a, b) != eye32() by {
        if mat_mul32(a, b) == eye32() {
            lemma_vec_mul_assoc32(u, a, b);
            lemma_vm_prefix_zero32(b, 32);
            lemma_vec_mul_eye32(u);
            assert(false);
        }
    }
}

/// A GF(2) square bit-matrix of order 32: 32 rows, each a `u32`.
pub struct BitMatrix32 {
    rows: Vec<u32>,
}

impl View for BitMatrix32 {
    type V = Seq<u32>;

    closed spec fn view(&self) -> Seq<u32> {
        self.rows@
    }
}

impl Clone for BitMatrix32 {
    fn clone(&self) -> (r: Self)
        ensures
            r@ == self@,
    {
        let mut rows: Vec<u32> = Vec::new();
        let mut i: usize = 0;
        while i < self.rows.len()
            invariant
                i <= self.rows@.len(),
                rows@ == self.rows@.take(i as int),
            decreases self.rows@.len() - i,
        {
            rows.push(self.rows[i]);
            i += 1;
        }
        proof {
            assert(rows@ =~= self.rows@);
        }
        BitMatrix32 { rows }
    }
}

impl BitMatrix32 {
    /// A matrix holds exactly 32 rows.
    pub open spec fn wf(&self) -> bool {
        self@.len() == 32
    }

    /// Row `i`.
    pub fn row(&self, i: usize) -> (r: u32)
        requires
            self.wf(),
            i < 32,
        ensures
            r == self@[i as int],
    {
        self.rows[i]
    }

    /// A matrix made of the given 32 rows.
    pub fn from_rows(rows: Vec<u32>) -> (r: Self)
        requires
            rows@.len() == 32,
        ensures
            r.wf(),
            r@ == rows@,
    {
        BitMatrix32 { rows }
    }

    /// The all-zero matrix.
    pub fn zero() -> (r: Self)
        ensures
            r.wf(),
            r@ == zero_rows32(),
    {
        let mut rows: Vec<u32> = Vec::new();
        let mut i: usize = 0;
        while i < 32
            invariant
                i <= 32,
                rows@.len() == i,
                forall|j: int| 0 <= j < i ==> rows@[j] == 0u32,
            decreases 32 - i,
        {
            rows.push(0u32);
            i += 1;
        }
        let r = BitMatrix32 { rows };
        proof {
            assert(r@ =~= zero_rows32());
        }
        r
    }

    /// The identity matrix.
    pub fn eye() -> (r: Self)
        ensures
            r.wf(),
            r@ == eye32(),
    {
        let mut rows: Vec<u32> = Vec::new();
        let mut i: usize = 0;
        while i < 32
            invariant
                i <= 32,
                rows@.len() == i,
                forall|j: int| 0 <= j < i ==> rows@[j] == 1u32 << (j as u32),
            decreases 32 - i,
        {
            rows.push(1u32 << (i as u32));
            i += 1;
        }
        let r = BitMatrix32 { rows };
        proof {
            assert(r@ =~= eye32());
        }
        r
    }

    /// The matrix of the map `v -> v >> bits`: the identity, column-shifted.
    pub fn shr(bits: u32) -> (r: Self)
        requires
            bits < 32,
        ensures
            r.wf(),
            r@ == shr_rows32(eye32(), bits),
    {
        Self::eye().shift_right(bits)
    }

    /// The matrix of the map `v -> v << bits`: the identity, column-shifted.
    pub fn shl(bits: u32) -> (r: Self)
        requires
            bits < 32,
        ensures
            r.wf(),
            r@ == shl_rows32(eye32(), bits),
    {
        Self::eye().shift_left(bits)
    }

    /// AND every row with `mask`: restricts the domain bits of the map.
    pub fn and(&self, mask: u32) -> (r: Self)
        requires
            self.wf(),
        ensures
            r.wf(),
            r@ == and_rows32(self@, mask),
    {
        let mut rows: Vec<u32> = Vec::new();
        let mut i: usize = 0;
        while i < 32
            invariant
                self.wf(),
                i <= 32,
                rows@.len() == i,
                forall|j: int| 0 <= j < i ==> rows@[j] == self@[j] & mask,
            decreases 32 - i,
        {
            rows.push(self.rows[i] & mask);
            i += 1;
        }
        let r = BitMatrix32 { rows };
        proof {
            assert(r@ =~= and_rows32(self@, mask));
        }
        r
    }

    /// Componentwise XOR of two matrices.
    pub fn xor(&self, other: &Self) -> (r: Self)
        requires
            self.wf(),
            other.wf(),
        ensures
            r.wf(),
            r@ == xor_rows32(self@, other@),
    {
        let mut rows: Vec<u32> = Vec::new();
        let mut i: usize = 0;
        while i < 32
            invariant
                self.wf(),
                other.wf(),
                i <= 32,
                rows@.len() == i,
                forall|j: int| 0 <= j < i ==> rows@[j] == (self@[j] ^ other@[j]),
            decreases 32 - i,
        {
            rows.push(self.rows[i] ^ other.rows[i]);
            i += 1;
        }
        let r = BitMatrix32 { rows };
        proof {
            assert(r@ =~= xor_rows32(self@, other@));
        }
        r
    }

    /// Shift every row left by `bits`: shifts the column coordinate up.
    pub fn shift_left(&self, bits: u32) -> (r: Self)
        requires
            self.wf(),
            bits < 32,
        ensures
            r.wf(),
            r@ == shl_rows32(self@, bits),
    {
        let mut rows: Vec<u32> = Vec::new();
        let mut i: usize = 0;
        while i < 32
            invariant
                self.wf(),
                bits < 32,
                i <= 32,
                rows@.len() == i,
                forall|j: int| 0 <= j < i ==> rows@[j] == (self@[j] << bits),
            decreases 32 - i,
        {
            rows.push(self.rows[i] << bits);
            i += 1;
        }
        let r = BitMatrix32 { rows };
        proof {
            assert(r@ =~= shl_rows32(self@, bits));
        }
        r
    }

    /// Shift every row right by `bits`: shifts the column coordinate down.
    pub fn shift_right(&self, bits: u32) -> (r: Self)
        requires
            self.wf(),
            bits < 32,
        ensures
            r.wf(),
            r@ == shr_rows32(self@, bits),
    {
        let mut rows: Vec<u32> = Vec::new();
        let mut i: usize = 0;
        while i < 32
            invariant
                self.wf(),
                bits < 32,
                i <= 32,
                rows@.len() == i,
                forall|j: int| 0 <= j < i ==> rows@[j] == (self@[j] >> bits),
            decreases 32 - i,
        {
            rows.push(self.rows[i] >> bits);
            i += 1;
        }
        let r = BitMatrix32 { rows };
        proof {
            assert(r@ =~= shr_rows32(self@, bits));
        }
        r
    }

    /// Slide the rows down by `much`; the vacated rows are zero.
    pub fn shd(&self, much: usize) -> (r: Self)
        requires
            self.wf(),
            much <= 32,
        ensures
            r.wf(),
            r@ == shd_rows32(self@, much as int),
    {
        let mut rows: Vec<u32> = Vec::new();
        let mut i: usize = 0;
        while i < 32
            invariant
                self.wf(),
                much <= 32,
                i <= 32,
                rows@.len() == i,
                forall|j: int| 0 <= j < i ==> rows@[j] == shd_rows32(self@, much as int)[j],
            decreases 32 - i,
        {
            let val = if i < much {
                0u32
            } else {
                self.rows[i - much]
            };
            rows.push(val);
            i += 1;
        }
        let r = BitMatrix32 { rows };
        proof {
            assert(r@ =~= shd_rows32(self@, much as int));
        }
        r
    }

    /// Slide the rows up by `much`; the vacated rows are zero.
    pub fn shu(&self, much: usize) -> (r: Self)
        requires
            self.wf(),
            much <= 32,
        ensures
            r.wf(),
            r@ == shu_rows32(self@, much as int),
    {
        let mut rows: Vec<u32> = Vec::new();
        let mut i: usize = 0;
        while i < 32
            invariant
                self.wf(),
                much <= 32,
                i <= 32,
                rows@.len() == i,
                forall|j: int| 0 <= j < i ==> rows@[j] == shu_rows32(self@, much as int)[j],
            decreases 32 - i,
        {
            let val = if i + much < 32 {
                self.rows[i + much]
            } else {
                0u32
            };
            rows.push(val);
            i += 1;
        }
        let r = BitMatrix32 { rows };
        proof {
            assert(r@ =~= shu_rows32(self@, much as int));
        }
        r
    }

    /// Delete rows `s..e`, sliding the higher rows down; used to drop
    /// under-constrained input bits.
    pub fn vskip(&self, s: usize, e: usize) -> (r: Self)
        requires
            self.wf(),
            s <= e <= 32,
        ensures
            r.wf(),
            r@ == vskip_rows32(self@, s as int, e as int),
    {
        let mut rows: Vec<u32> = Vec::new();
        let mut i: usize = 0;
        while i < 32
            invariant
                self.wf(),
                s <= e <= 32,
                i <= 32,
                rows@.len() == i,
                forall|j: int| 0 <= j < i ==> rows@[j] == vskip_rows32(self@, s as int, e as int)[j],
            decreases 32 - i,
        {
            let val = if i < s {
                self.rows[i]
            } else if i + (e - s) < 32 {
                self.rows[i + (e - s)]
            } else {
                0u32
            };
            rows.push(val);
            i += 1;
        }
        let r = BitMatrix32 { rows };
        proof {
            assert(r@ =~= vskip_rows32(self@, s as int, e as int));
        }
        r
    }

    /// Keep only column bits `s..e` of every row, clearing the others.
    pub fn select(&self, s: u32, e: u32) -> (r: Self)
        requires
            self.wf(),
            s <= e <= 32,
        ensures
            r.wf(),
            r@ == and_rows32(self@, range_mask32(s, e)),
    {
        let lo = lowmask_exec(s);
        let hi = lowmask_exec(e);
        self.and(hi & !lo)
    }

    /// Delete column bits `s..e` of every row, compacting the higher columns
    /// down; used to drop under-constrained output bits.
    pub fn hskip(&self, s: u32, e: u32) -> (r: Self)
        requires
            self.wf(),
            s <= e <= 32,
        ensures
            r.wf(),
            r@ == hskip_rows32(self@, s, e),
    {
        let lo = lowmask_exec(s);
        let mut rows: Vec<u32> = Vec::new();
        let mut i: usize = 0;
        while i < 32
            invariant
                self.wf(),
                s <= e <= 32,
                lo == lowmask32(s),
                i <= 32,
                rows@.len() == i,
                forall|j: int| 0 <= j < i ==> rows@[j] == hskip_bits32(self@[j], s, e),
            decreases 32 - i,
        {
            let v = self.rows[i];
            let val = if e >= 32 {
                v & lo
            } else {
                (v & lo) | ((v >> e) << s)
            };
            rows.push(val);
            i += 1;
        }
        let r = BitMatrix32 { rows };
        proof {
            assert(r@ =~= hskip_rows32(self@, s, e));
        }
        r
    }

    /// The product `v * self`.
    pub fn vec_mul(&self, v: u32) -> (r: u32)
        requires
            self.wf(),
        ensures
            r == vec_mul32(v, self@),
    {
        let mut out: u32 = 0;
        let mut i: usize = 0;
        while i < 32
            invariant
                self.wf(),
                i <= 32,
                out == vm_prefix32(v, self@, i as int),
            decreases 32 - i,
        {
            proof {
                lemma_xor_basics32();
            }
            if (v >> (i as u32)) & 1 == 1 {
                out = out ^ self.rows[i];
            }
            i += 1;
        }
        out
    }

    /// Matrix product: row `i` of the result is `self[i] * other`.
    pub fn mul(&self, other: &Self) -> (r: Self)
        requires
            self.wf(),
            other.wf(),
        ensures
            r.wf(),
            r@ == mat_mul32(self@, other@),
    {
        let mut rows: Vec<u32> = Vec::new();
        let mut i: usize = 0;
        while i < 32
            invariant
                self.wf(),
                other.wf(),
                i <= 32,
                rows@.len() == i,
                forall|j: int| 0 <= j < i ==> rows@[j] == vec_mul32(self@[j], other@),
            decreases 32 - i,
        {
            rows.push(other.vec_mul(self.rows[i]));
            i += 1;
        }
        let r = BitMatrix32 { rows };
        proof {
            assert(r@ =~= mat_mul32(self@, other@));
        }
        r
    }

    /// `self` to the `n`-th power, by binary exponentiation.
    pub fn pow(&self, n: usize) -> (r: Self)
        requires
            self.wf(),
        ensures
            r.wf(),
            r@ == mat_pow32(self@, n as nat),
    {
        let mut base = self.clone();
        let mut out = Self::eye();
        let mut p = n;
        proof {
            lemma_mat_pow_len32(self@, n as nat);
            lemma_mat_mul_eye32(mat_pow32(self@, n as nat));
        }
        while p > 0
            invariant
                base.wf(),
                out.wf(),
                mat_mul32(out@, mat_pow32(base@, p as nat)) == mat_pow32(self@, n as nat),
            decreases p,
        {
            proof {
                lemma_usize_shift_half(p);
                lemma_mat_pow_len32(base@, (p / 2) as nat);
                lemma_mat_pow_len32(base@, p as nat);
                lemma_mat_pow_square32(base@, (p / 2) as nat);
                if p % 2 == 1 {
                    lemma_mat_pow_left32(base@, (p - 1) as nat);
                    lemma_mat_pow_len32(base@, (p - 1) as nat);
                    lemma_mat_mul_assoc32(out@, base@, mat_pow32(base@, (p - 1) as nat));
                }
            }
            if p & 1 == 1 {
                out = out.mul(&base);
            }
            base = base.mul(&base);
            p = p >> 1;
        }
        proof {
            lemma_mat_mul_eye32(out@);
        }
        out
    }

    /// Invert by Gauss-Jordan elimination over GF(2).  The candidate
    /// accumulates the row operations applied to a working copy, so every
    /// working row is the candidate row times the input; a ghost inverse of
    /// the accumulated operations witnesses that no candidate row is zero.
    /// If every column yields a pivot the working copy ends as the
    /// identity, which proves the candidate a left inverse, and the right
    /// side is certified by multiplication.  Otherwise some working row
    /// ends zero, and its nonzero candidate row is a left-kernel vector:
    /// `Err` is returned only with the matrix proved singular.
    #[verifier::rlimit(100)]
    pub fn inv(&self) -> (r: Result<Self, Error>)
        requires
            self.wf(),
        ensures
            match r {
                Ok(m) => m.wf() && mat_mul32(self@, m@) == eye32() && mat_mul32(m@, self@)
                    == eye32(),
                Err(Error::MatrixNotInvertible { stuck_at_col }) => stuck_at_col < 32 && forall|
                    b: Seq<u32>,
                |
                    b.len() == 32 ==> mat_mul32(self@, b) != eye32(),
            },
    {
        let mut tmp = self.clone();
        let mut inv = Self::eye();
        let ghost mut invb: Seq<u32> = eye32();
        let mut rank: usize = 0;
        let mut stuck: usize = 32;
        proof {
            lemma_mat_mul_eye32(eye32());
            assert forall|j: int| 0 <= j < 32 implies tmp@[j] == vec_mul32(
                #[trigger] inv@[j],
                self@,
            ) by {
                lemma_vec_mul_unit32(j as u32, self@);
            }
            assert forall|j: int| 0 <= j < 32 implies #[trigger] tmp@[j] & lowmask32(0)
                == 0u32 by {
                lemma_elim_bits32(tmp@[j], 0u32, 0u32, 0u32);
            }
        }
        let mut c: usize = 0;
        while c < 32
            invariant
                self.wf(),
                tmp.wf(),
                inv.wf(),
                rank <= c <= 32,
                invb.len() == 32,
                mat_mul32(inv@, invb) == eye32(),
                forall|j: int| 0 <= j < 32 ==> tmp@[j] == vec_mul32(#[trigger] inv@[j], self@),
                forall|j: int|
                    rank <= j < 32 ==> #[trigger] tmp@[j] & lowmask32(c as u32) == 0u32,
                stuck <= 32,
                stuck < 32 ==> rank < c,
                stuck == 32 ==> rank == c && forall|k: int|
                    0 <= k < rank ==> #[trigger] tmp@[k] & lowmask32(c as u32) == (1u32 << (
                    k as u32)),
            decreases 32 - c,
        {
            // find the first row at or below `rank` with bit c set
            let mut pos: usize = 32;
            let mut jj: usize = rank;
            while jj < 32
                invariant
                    tmp.wf(),
                    rank <= jj <= 32,
                    c < 32,
                    pos == 32 || (rank <= pos < 32 && (tmp@[pos as int] >> (c as u32)) & 1u32
                        == 1u32),
                    pos == 32 ==> forall|j: int|
                        rank <= j < jj ==> (#[trigger] tmp@[j] >> (c as u32)) & 1u32 != 1u32,
                decreases 32 - jj,
            {
                if pos == 32 && (tmp.rows[jj] >> (c as u32)) & 1 == 1 {
                    pos = jj;
                }
                jj += 1;
            }
            if pos == 32 {
                // no pivot: the column is skipped and the rank falls short
                if stuck == 32 {
                    stuck = c;
                }
                proof {
                    assert forall|j: int| rank <= j < 32 implies #[trigger] tmp@[j] & lowmask32(
                        (c + 1) as u32,
                    ) == 0u32 by {
                        lemma_elim_bits32(tmp@[j], 0u32, c as u32, 0u32);
                    }
                }
            } else {
                // move the pivot row up to row `rank`
                let ghost tmp_s = tmp@;
                let ghost inv_s = inv@;
                let a = tmp.rows[rank];
                let b = tmp.rows[pos];
                tmp.rows[rank] = b;
                tmp.rows[pos] = a;
                let a = inv.rows[rank];
                let b = inv.rows[pos];
                inv.rows[rank] = b;
                inv.rows[pos] = a;
                proof {
                    assert(tmp@ =~= swapped32(tmp_s, rank as int, pos as int));
                    assert(inv@ =~= swapped32(inv_s, rank as int, pos as int));
                    lemma_swap_keeps_inverse32(inv_s, invb, rank as int, pos as int);
                    invb = mat_mul32(invb, eswap32(rank as int, pos as int));
                    assert forall|j: int| 0 <= j < 32 implies tmp@[j] == vec_mul32(
                        #[trigger] inv@[j],
                        self@,
                    ) by {
                        if j == rank as int {
                            assert(inv@[j] == inv_s[pos as int]);
                        } else if j == pos as int {
                            assert(inv@[j] == inv_s[rank as int]);
                        }
                    }
                }
                // clear bit c from every other row
                let mut jj: usize = 0;
                while jj < 32
                    invariant
                        self.wf(),
                        tmp.wf(),
                        inv.wf(),
                        rank <= c < 32,
                        jj <= 32,
                        invb.len() == 32,
                        mat_mul32(inv@, invb) == eye32(),
                        forall|j: int|
                            0 <= j < 32 ==> tmp@[j] == vec_mul32(#[trigger] inv@[j], self@),
                        tmp@[rank as int] & lowmask32(c as u32) == 0u32,
                        (tmp@[rank as int] >> (c as u32)) & 1u32 == 1u32,
                        forall|j: int|
                            rank <= j < 32 ==> #[trigger] tmp@[j] & lowmask32(c as u32) == 0u32,
                        forall|j: int|
                            0 <= j < jj && j != rank ==> (#[trigger] tmp@[j] >> (c as u32)) & 1u32
                                != 1u32,
                        stuck <= 32,
                        stuck < 32 ==> rank < c,
                        stuck == 32 ==> rank == c && forall|k: int|
                            0 <= k < rank ==> #[trigger] tmp@[k] & lowmask32(c as u32) == (1u32 << (
                            k as u32)),
                    decreases 32 - jj,
                {
                    if jj != rank && (tmp.rows[jj] >> (c as u32)) & 1 == 1 {
                        let ghost tmp_s = tmp@;
                        let ghost inv_s = inv@;
                        let piv = tmp.rows[rank];
                        tmp.rows[jj] = tmp.rows[jj] ^ piv;
                        let pivi = inv.rows[rank];
                        inv.rows[jj] = inv.rows[jj] ^ pivi;
                        proof {
                            assert(tmp@ =~= rowxor32(tmp_s, jj as int, rank as int));
                            assert(inv@ =~= rowxor32(inv_s, jj as int, rank as int));
                            lemma_rowxor_keeps_inverse32(inv_s, invb, jj as int, rank as int);
                            invb = mat_mul32(invb, exor32(jj as int, rank as int));
                            lemma_vm_prefix_xor_vec32(
                                inv_s[jj as int],
                                inv_s[rank as int],
                                self@,
                                32,
                            );
                            lemma_elim_bits32(
                                tmp_s[jj as int],
                                tmp_s[rank as int],
                                c as u32,
                                jj as u32,
                            );
                        }
                    }
                    jj += 1;
                }
                proof {
                    // the pivot row joins the solved block; every other row
                    // extends its cleared mask past column c
                    lemma_elim_bits32(tmp@[rank as int], 0u32, c as u32, 0u32);
                    assert forall|j: int| rank + 1 <= j < 32 implies #[trigger] tmp@[j]
                        & lowmask32((c + 1) as u32) == 0u32 by {
                        lemma_elim_bits32(tmp@[j], 0u32, c as u32, 0u32);
                    }
                    if stuck == 32 {
                        assert forall|k: int| 0 <= k < rank implies #[trigger] tmp@[k] & lowmask32(
                            (c + 1) as u32,
                        ) == (1u32 << (k as u32)) by {
                            lemma_elim_bits32(tmp@[k], 0u32, c as u32, k as u32);
                        }
                    }
                }
                rank += 1;
            }
            c += 1;
        }
        if rank < 32 {
            // a zero working row remains: its candidate row, nonzero by the
            // ghost certificate, maps to zero through the input
            proof {
                lemma_xor_basics32();
                assert(tmp@[rank as int] & lowmask32(32) == 0u32);
                assert(tmp@[rank as int] == 0u32);
                lemma_right_invertible_rows_nonzero32(inv@, invb, rank as int);
                lemma_left_kernel_singular32(self@, inv@[rank as int]);
            }
            return Err(Error::MatrixNotInvertible { stuck_at_col: stuck });
        }
        proof {
            // every column held a pivot: the working copy is the identity,
            // so the candidate is a left inverse
            lemma_xor_basics32();
            assert forall|k: int| 0 <= k < 32 implies vec_mul32(#[trigger] inv@[k], self@)
                == eye32()[k] by {
                assert(tmp@[k] & lowmask32(32) == (1u32 << (k as u32)));
            }
            assert(mat_mul32(inv@, self@) =~= eye32());
        }
        // certify the right side row by row; a failing row yields a
        // left-kernel vector through the proven left inverse
        let mut i: usize = 0;
        while i < 32
            invariant
                self.wf(),
                inv.wf(),
                i <= 32,
                mat_mul32(inv@, self@) == eye32(),
                forall|j: int| 0 <= j < i ==> vec_mul32(self@[j], inv@) == eye32()[j],
            decreases 32 - i,
        {
            let row = inv.vec_mul(self.rows[i]);
            if row != 1u32 << (i as u32) {
                proof {
                    let w = row ^ (1u32 << (i as u32));
                    lemma_xor_basics32();
                    lemma_vm_prefix_xor_vec32(row, 1u32 << (i as u32), self@, 32);
                    lemma_vec_mul_assoc32(self@[i as int], inv@, self@);
                    lemma_vec_mul_eye32(self@[i as int]);
                    lemma_vec_mul_unit32(i as u32, self@);
                    assert(vec_mul32(w, self@) == 0u32);
                    lemma_left_kernel_singular32(self@, w);
                }
                return Err(Error::MatrixNotInvertible { stuck_at_col: i });
            }
            i += 1;
        }
        proof {
            assert(mat_mul32(self@, inv@) =~= eye32());
        }
        Ok(inv)
    }

    /// Decompose the matrix into masked XOR-shift items that together
    /// compute the same linear map: scan the diagonals, clear each maximal
    /// run found, and emit one item for it.  The XOR of the items' matrices
    /// reconstructs the matrix exactly.
    #[verifier::rlimit(100)]
    pub fn xorshift_form(&self) -> (r: Vec<(Option<u32>, XorShiftOp)>)
        requires
            self.wf(),
        ensures
            xs_reconstruct32(r@) == self@,
    {
        let mut tmp = self.clone();
        let mut result: Vec<(Option<u32>, XorShiftOp)> = Vec::new();
        proof {
            lemma_xor_mini32();
            assert(xor_rows32(xs_reconstruct32(result@), tmp@) =~= self@);
        }
        let mut ii: usize = 0;
        while ii < 32
            invariant
                tmp.wf(),
                self.wf(),
                ii <= 32,
                forall|r: int| 0 <= r < ii ==> tmp@[r] == 0u32,
                xor_rows32(xs_reconstruct32(result@), tmp@) == self@,
            decreases 32 - ii,
        {
            proof {
                lemma_xor_mini32();
                assert(lowmask32(0) == 0u32) by (bit_vector);
            }
            let mut jj: usize = 0;
            while jj < 32
                invariant
                    tmp.wf(),
                    self.wf(),
                    ii < 32,
                    jj <= 32,
                    forall|r: int| 0 <= r < ii ==> tmp@[r] == 0u32,
                    tmp@[ii as int] & lowmask32(jj as u32) == 0u32,
                    xor_rows32(xs_reconstruct32(result@), tmp@) == self@,
                decreases 32 - jj,
            {
                proof {
                    lemma_xor_mini32();
                    lemma_xs_clear_step32(tmp@[ii as int], jj as u32);
                }
                if (tmp.row(ii) >> (jj as u32)) & 1 == 1 {
                    let len = 32 - (if ii > jj {
                        ii
                    } else {
                        jj
                    });
                    // measure the maximal run along the diagonal
                    let mut last: usize = 1;
                    while last < len && (tmp.row(ii + last) >> ((jj + last) as u32)) & 1 == 1
                        invariant
                            tmp.wf(),
                            ii < 32,
                            jj < 32,
                            len == 32 - (if ii > jj {
                                ii as int
                            } else {
                                jj as int
                            }),
                            1 <= last <= len,
                        decreases len - last,
                    {
                        last += 1;
                    }
                    // clear the run
                    let ghost tmp0 = tmp@;
                    let ghost res0 = result@;
                    let mut kk: usize = 0;
                    while kk < last
                        invariant
                            tmp.wf(),
                            ii < 32,
                            jj < 32,
                            1 <= last,
                            ii + last <= 32,
                            jj + last <= 32,
                            kk <= last,
                            tmp0.len() == 32,
                            forall|r: int|
                                0 <= r < 32 && !(ii <= r < ii + kk) ==> tmp@[r] == tmp0[r],
                            forall|r: int|
                                ii <= r < ii + kk ==> tmp@[r] == (tmp0[r] ^ (1u32 << ((jj + (r
                                    - (ii as int))) as u32))),
                        decreases last - kk,
                    {
                        let v = tmp.row(ii + kk);
                        tmp.rows[ii + kk] = v ^ (1u32 << ((jj + kk) as u32));
                        kk += 1;
                    }
                    // emit the item for the run
                    let op = if ii == jj {
                        XorShiftOp::Ident
                    } else if ii < jj {
                        XorShiftOp::Shl((jj - ii) as u32)
                    } else {
                        XorShiftOp::Shr((ii - jj) as u32)
                    };
                    let mask = (0xffff_ffffu32 >> ((32 - last) as u32)) << (ii as u32);
                    let dm = match op {
                        XorShiftOp::Ident => 0xffff_ffffu32,
                        XorShiftOp::Shl(k) => 0xffff_ffffu32 >> k,
                        XorShiftOp::Shr(k) => 0xffff_ffffu32 << k,
                    };
                    let entry = if mask == dm {
                        (None, op)
                    } else {
                        (Some(mask), op)
                    };
                    result.push(entry);
                    proof {
                        lemma_xor_mini32();
                        assert(result@.drop_last() =~= res0);
                        let item = xs_item_rows32(entry.0, entry.1);
                        let diff = Seq::new(
                            32,
                            |r: int|
                                if ii <= r < ii + last {
                                    1u32 << ((jj + (r - (ii as int))) as u32)
                                } else {
                                    0u32
                                },
                        );
                        assert forall|r: int| 0 <= r < 32 implies item[r] == diff[r] by {
                            lemma_xs_bits32(r as u32, ii as u32, last as u32, (if ii < jj {
                                (jj - ii) as u32
                            } else {
                                (ii - jj) as u32
                            }));
                        }
                        assert forall|r: int| 0 <= r < 32 implies tmp@[r] == (tmp0[r]
                            ^ item[r]) by {
                            assert(item[r] == diff[r]);
                        }
                        assert(xs_reconstruct32(result@) == xor_rows32(
                            xs_reconstruct32(res0),
                            item,
                        ));
                        assert forall|r: int| 0 <= r < 32 implies xor_rows32(
                            xs_reconstruct32(result@),
                            tmp@,
                        )[r] == self@[r] by {
                            assert(xor_rows32(xs_reconstruct32(res0), tmp0)[r] == self@[r]);
                            assert(xs_reconstruct32(res0).len() == 32);
                            let a = xs_reconstruct32(res0)[r];
                            let b = item[r];
                            let c = tmp0[r];
                            assert(((a ^ b) ^ (c ^ b)) == a ^ c);
                        }
                        assert(xor_rows32(xs_reconstruct32(result@), tmp@) =~= self@);
                        lemma_xs_clear_step32(tmp0[ii as int], jj as u32);
                        assert(tmp@[ii as int] == tmp0[ii as int] ^ (1u32 << (jj as u32)));
                    }
                }
                jj += 1;
            }
            proof {
                lemma_xor_mini32();
                assert(tmp@[ii as int] & lowmask32(32) == 0u32);
                assert(tmp@[ii as int] == 0u32);
            }
            ii += 1;
        }
        proof {
            lemma_xor_mini32();
            assert(xs_reconstruct32(result@).len() == 32);
            assert forall|r: int| 0 <= r < 32 implies xs_reconstruct32(result@)[r] == self@[r] by {
                assert(xor_rows32(xs_reconstruct32(result@), tmp@)[r] == self@[r]);
            }
            assert(xs_reconstruct32(result@) =~= self@);
        }
        result
    }
}

/// The `n` lowest bits, set; the executable form of `lowmask32`.
fn lowmask_exec(n: u32) -> (r: u32)
    ensures
        r == lowmask32(n),
{
    if n >= 32 {
        0xffff_ffffu32
    } else {
        proof {
            assert(1u32 << n >= 1) by (bit_vector)
                requires
                    n < 32,
            ;
        }
        (1u32 << n) - 1
    }
}

/// Shifting a `usize` right by one halves it; its lowest bit is the parity.
proof fn lemma_usize_shift_half(p: usize)
    by (bit_vector)
    ensures
        (p & 1) == p % 2,
        (p >> 1) == p / 2,
{
}

/// A certified inverse undoes the matrix's vector action:
/// `(v * a) * b == v` whenever `a * b == I`.
pub proof fn lemma_inverse_cancels32(v: u32, a: Seq<u32>, b: Seq<u32>)
    requires
        a.len() == 32,
        b.len() == 32,
        mat_mul32(a, b) == eye32(),
    ensures
        vec_mul32(vec_mul32(v, a), b) == v,
{
    lemma_vec_mul_assoc32(v, a, b);
    lemma_vec_mul_eye32(v);
}

} // verus!
