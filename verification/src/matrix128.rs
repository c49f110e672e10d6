//! Square bit-matrices of order 128 over GF(2).
//!
//! A matrix is a sequence of 128 rows, each a `u128`; row `i` bit `j` is the
//! (i, j) entry.  Addition is XOR.  The product of a vector `v` and a
//! matrix is the XOR of the rows selected by the bits of `v`; the product
//! of two matrices applies that action to every row of the left factor.

use vstd::prelude::*;

use crate::matrix::Error;
use crate::matrix::XorShiftOp;

verus! {

/// Bit `i` of `v`.
pub open spec fn bit128(v: u128, i: u128) -> bool {
    (v >> i) & 1 == 1
}

/// The `n` lowest bits, set.
pub open spec fn lowmask128(n: u128) -> u128 {
    if n >= 128 {
        0xffff_ffff_ffff_ffff_ffff_ffff_ffff_ffffu128
    } else {
        ((1u128 << n) - 1) as u128
    }
}

/// Bits `s..e`, set.
pub open spec fn range_mask128(s: u128, e: u128) -> u128 {
    lowmask128(e) & !lowmask128(s)
}

/// XOR of the first `n` rows selected by the low `n` bits of `v`.
pub open spec fn vm_prefix128(v: u128, rows: Seq<u128>, n: int) -> u128
    decreases n,
{
    if n <= 0 {
        0u128
    } else {
        vm_prefix128(v, rows, n - 1) ^ (if bit128(v, (n - 1) as u128) {
            rows[n - 1]
        } else {
            0u128
        })
    }
}

/// The product `v * M`: XOR of the rows of `M` selected by the bits of `v`.
pub open spec fn vec_mul128(v: u128, rows: Seq<u128>) -> u128 {
    vm_prefix128(v, rows, rows.len() as int)
}

/// Row `i` of the identity matrix is `1 << i`.
pub open spec fn eye128() -> Seq<u128> {
    Seq::new(128, |i: int| 1u128 << (i as u128))
}

pub open spec fn zero_rows128() -> Seq<u128> {
    Seq::new(128, |i: int| 0u128)
}

/// Matrix product: row `i` of the result is `a[i] * b`.
pub open spec fn mat_mul128(a: Seq<u128>, b: Seq<u128>) -> Seq<u128> {
    Seq::new(a.len(), |i: int| vec_mul128(a[i], b))
}

/// `m` to the `n`-th power under `mat_mul128`.
pub open spec fn mat_pow128(m: Seq<u128>, n: nat) -> Seq<u128>
    decreases n,
{
    if n == 0 {
        eye128()
    } else {
        mat_mul128(mat_pow128(m, (n - 1) as nat), m)
    }
}

pub open spec fn and_rows128(rows: Seq<u128>, mask: u128) -> Seq<u128> {
    Seq::new(rows.len(), |i: int| rows[i] & mask)
}

pub open spec fn xor_rows128(a: Seq<u128>, b: Seq<u128>) -> Seq<u128> {
    Seq::new(a.len(), |i: int| a[i] ^ b[i])
}

/// Shift every row left: shifts the column coordinate up.
pub open spec fn shl_rows128(rows: Seq<u128>, k: u128) -> Seq<u128> {
    Seq::new(rows.len(), |i: int| rows[i] << k)
}

/// Shift every row right: shifts the column coordinate down.
pub open spec fn shr_rows128(rows: Seq<u128>, k: u128) -> Seq<u128> {
    Seq::new(rows.len(), |i: int| rows[i] >> k)
}

/// Slide the rows down by `m`; the top `m` rows become zero.
pub open spec fn shd_rows128(rows: Seq<u128>, m: int) -> Seq<u128> {
    Seq::new(rows.len(), |i: int| if i < m { 0u128 } else { rows[i - m] })
}

/// Slide the rows up by `m`; the bottom `m` rows become zero.
pub open spec fn shu_rows128(rows: Seq<u128>, m: int) -> Seq<u128> {
    Seq::new(rows.len(), |i: int| if i + m < rows.len() { rows[i + m] } else { 0u128 })
}

/// Delete rows `s..e`, sliding the higher rows down and zero-filling the top.
pub open spec fn vskip_rows128(rows: Seq<u128>, s: int, e: int) -> Seq<u128> {
    Seq::new(
        rows.len(),
        |i: int|
            if i < s {
                rows[i]
            } else if i + (e - s) < rows.len() {
                rows[i + (e - s)]
            } else {
                0u128
            },
    )
}

/// Delete column bits `s..e` of one row, compacting the higher bits down.
pub open spec fn hskip_bits128(v: u128, s: u128, e: u128) -> u128 {
    if e >= 128 {
        v & lowmask128(s)
    } else {
        (v & lowmask128(s)) | ((v >> e) << s)
    }
}

/// Delete columns `s..e`, compacting the higher columns down.
pub open spec fn hskip_rows128(rows: Seq<u128>, s: u128, e: u128) -> Seq<u128> {
    Seq::new(rows.len(), |i: int| hskip_bits128(rows[i], s, e))
}

/// XOR is associative and commutative, with unit 0, and distributes over AND.
pub proof fn lemma_xor_basics128()
    by (bit_vector)
    ensures
        forall|a: u128| #[trigger] (a ^ 0u128) == a,
        forall|a: u128| #[trigger] (0u128 ^ a) == a,
        forall|a: u128, b: u128| #[trigger] (a ^ b) == (b ^ a),
        forall|a: u128, b: u128, c: u128| #[trigger] ((a ^ b) ^ c) == a ^ (b ^ c),
        forall|a: u128| #[trigger] (a ^ a) == 0u128,
        forall|a: u128| #[trigger] (a & 0xffff_ffff_ffff_ffff_ffff_ffff_ffff_ffffu128) == a,
        forall|a: u128| #[trigger] (a & 0u128) == 0u128,
        forall|a: u128, b: u128, m: u128| #[trigger] ((a ^ b) & m) == (a & m) ^ (b & m),
        forall|a: u128, b: u128, c: u128| #[trigger] ((a ^ b) ^ (c ^ b)) == a ^ c,
{
}

/// A restricted set of XOR and AND facts whose triggers cannot chain into
/// each other; for proofs where the associativity and commutativity
/// quantifiers of `lemma_xor_basics128` would be too eager.
pub proof fn lemma_xor_mini128()
    by (bit_vector)
    ensures
        forall|a: u128| #[trigger] (a ^ 0u128) == a,
        forall|a: u128| #[trigger] (0u128 ^ a) == a,
        forall|a: u128| #[trigger] (a & 0u128) == 0u128,
        forall|a: u128| #[trigger] (a & 0xffff_ffff_ffff_ffff_ffff_ffff_ffff_ffffu128) == a,
        forall|a: u128, b: u128| #[trigger] ((a ^ b) ^ b) == a,
        forall|a: u128, b: u128, c: u128| #[trigger] ((a ^ b) ^ (c ^ b)) == a ^ c,
{
}

/// How single bits behave under XOR, zero and unit vectors.
pub proof fn lemma_bit_facts128()
    by (bit_vector)
    ensures
        forall|x: u128, y: u128, i: u128|
            i < 128 ==> #[trigger] bit128(x ^ y, i) == (bit128(x, i) != bit128(y, i)),
        forall|i: u128| i < 128 ==> !bit128(0u128, i),
        forall|i: u128, j: u128| i < 128 && j < 128 ==> (#[trigger] bit128(1u128 << i, j) == (i == j)),
        forall|x: u128, m: u128, i: u128|
            i < 128 ==> #[trigger] bit128(x & m, i) == (bit128(x, i) && bit128(m, i)),
{
}

/// Splitting the low `n` bits of `v` into the low `n - 1` bits and bit `n - 1`.
proof fn lemma_lowmask_step128(v: u128, n: u128)
    by (bit_vector)
    requires
        1 <= n <= 128,
    ensures
        (v & lowmask128(n)) == ((v & lowmask128((n - 1) as u128)) ^ (if bit128(v, (n - 1) as u128) {
            1u128 << ((n - 1) as u128)
        } else {
            0u128
        })),
{
}

/// The vector-matrix product is GF(2)-linear in the vector.
pub proof fn lemma_vm_prefix_xor_vec128(x: u128, y: u128, rows: Seq<u128>, n: int)
    requires
        0 <= n <= 128,
    ensures
        vm_prefix128(x ^ y, rows, n) == vm_prefix128(x, rows, n) ^ vm_prefix128(y, rows, n),
    decreases n,
{
    lemma_xor_basics128();
    lemma_bit_facts128();
    if n > 0 {
        lemma_vm_prefix_xor_vec128(x, y, rows, n - 1);
    }
}

/// The zero vector selects no rows.
pub proof fn lemma_vm_prefix_zero128(rows: Seq<u128>, n: int)
    requires
        0 <= n <= 128,
    ensures
        vm_prefix128(0u128, rows, n) == 0u128,
    decreases n,
{
    lemma_xor_basics128();
    lemma_bit_facts128();
    if n > 0 {
        lemma_vm_prefix_zero128(rows, n - 1);
    }
}

/// A unit vector selects a single row.
pub proof fn lemma_vm_prefix_unit128(i: u128, rows: Seq<u128>, n: int)
    requires
        i < 128,
        0 <= n <= 128,
    ensures
        vm_prefix128(1u128 << i, rows, n) == if i < n { rows[i as int] } else { 0u128 },
    decreases n,
{
    lemma_xor_basics128();
    lemma_bit_facts128();
    if n > 0 {
        lemma_vm_prefix_unit128(i, rows, n - 1);
    }
}

/// Multiplying by the identity returns the low `n` bits of the vector.
proof fn lemma_vm_prefix_eye128(v: u128, n: int)
    requires
        0 <= n <= 128,
    ensures
        vm_prefix128(v, eye128(), n) == v & lowmask128(n as u128),
    decreases n,
{
    lemma_xor_basics128();
    if n == 0 {
        assert(v & lowmask128(0) == 0u128) by (bit_vector);
    } else {
        lemma_vm_prefix_eye128(v, n - 1);
        lemma_lowmask_step128(v, n as u128);
    }
}

/// `v * I == v`.
pub proof fn lemma_vec_mul_eye128(v: u128)
    ensures
        vec_mul128(v, eye128()) == v,
{
    lemma_xor_basics128();
    lemma_vm_prefix_eye128(v, 128);
    assert(v & lowmask128(128) == v);
}

/// `(1 << i) * m == m[i]`.
pub proof fn lemma_vec_mul_unit128(i: u128, rows: Seq<u128>)
    requires
        i < 128,
        rows.len() == 128,
    ensures
        vec_mul128(1u128 << i, rows) == rows[i as int],
{
    lemma_vm_prefix_unit128(i, rows, 128);
}

/// The vector action of a matrix product is the composed action:
/// `(v * a) * b == v * (a * b)`.
proof fn lemma_vm_prefix_assoc128(v: u128, a: Seq<u128>, b: Seq<u128>, n: int)
    requires
        0 <= n <= a.len(),
        a.len() <= 128,
        b.len() == 128,
    ensures
        vm_prefix128(v, mat_mul128(a, b), n) == vec_mul128(vm_prefix128(v, a, n), b),
    decreases n,
{
    lemma_xor_basics128();
    if n == 0 {
        lemma_vm_prefix_zero128(b, 128);
    } else {
        lemma_vm_prefix_assoc128(v, a, b, n - 1);
        if bit128(v, (n - 1) as u128) {
            lemma_vm_prefix_xor_vec128(vm_prefix128(v, a, n - 1), a[n - 1], b, 128);
        } else {
            lemma_vm_prefix_xor_vec128(vm_prefix128(v, a, n - 1), 0u128, b, 128);
            lemma_vm_prefix_zero128(b, 128);
        }
    }
}

/// `(v * a) * b == v * (a * b)`.
pub proof fn lemma_vec_mul_assoc128(v: u128, a: Seq<u128>, b: Seq<u128>)
    requires
        a.len() == 128,
        b.len() == 128,
    ensures
        vec_mul128(vec_mul128(v, a), b) == vec_mul128(v, mat_mul128(a, b)),
{
    lemma_vm_prefix_assoc128(v, a, b, 128);
}

/// Matrix multiplication is associative.
pub proof fn lemma_mat_mul_assoc128(a: Seq<u128>, b: Seq<u128>, c: Seq<u128>)
    requires
        a.len() == 128,
        b.len() == 128,
        c.len() == 128,
    ensures
        mat_mul128(mat_mul128(a, b), c) == mat_mul128(a, mat_mul128(b, c)),
{
    assert forall|i: int| 0 <= i < 128 implies mat_mul128(mat_mul128(a, b), c)[i] == mat_mul128(
        a,
        mat_mul128(b, c),
    )[i] by {
        lemma_vec_mul_assoc128(a[i], b, c);
    }
    assert(mat_mul128(mat_mul128(a, b), c) =~= mat_mul128(a, mat_mul128(b, c)));
}

/// The identity matrix is a left and right unit for multiplication.
pub proof fn lemma_mat_mul_eye128(a: Seq<u128>)
    requires
        a.len() == 128,
    ensures
        mat_mul128(a, eye128()) == a,
        mat_mul128(eye128(), a) == a,
{
    assert forall|i: int| 0 <= i < 128 implies mat_mul128(a, eye128())[i] == a[i] by {
        lemma_vec_mul_eye128(a[i]);
    }
    assert forall|i: int| 0 <= i < 128 implies mat_mul128(eye128(), a)[i] == a[i] by {
        lemma_vec_mul_unit128(i as u128, a);
    }
    assert(mat_mul128(a, eye128()) =~= a);
    assert(mat_mul128(eye128(), a) =~= a);
}

/// Powers keep the matrix order.
pub proof fn lemma_mat_pow_len128(m: Seq<u128>, n: nat)
    ensures
        mat_pow128(m, n).len() == 128,
    decreases n,
{
    if n > 0 {
        lemma_mat_pow_len128(m, (n - 1) as nat);
    }
}

/// `m * m^k == m^(k + 1)`.
pub proof fn lemma_mat_pow_left128(m: Seq<u128>, k: nat)
    requires
        m.len() == 128,
    ensures
        mat_mul128(m, mat_pow128(m, k)) == mat_pow128(m, k + 1),
    decreases k,
{
    lemma_mat_pow_len128(m, k);
    if k == 0 {
        lemma_mat_mul_eye128(m);
    } else {
        lemma_mat_pow_len128(m, (k - 1) as nat);
        lemma_mat_pow_left128(m, (k - 1) as nat);
        lemma_mat_mul_assoc128(m, mat_pow128(m, (k - 1) as nat), m);
    }
}

/// `(m * m)^k == m^(2k)`.
pub proof fn lemma_mat_pow_square128(m: Seq<u128>, k: nat)
    requires
        m.len() == 128,
    ensures
        mat_pow128(mat_mul128(m, m), k) == mat_pow128(m, 2 * k),
    decreases k,
{
    if k > 0 {
        lemma_mat_pow_square128(m, (k - 1) as nat);
        lemma_mat_pow_len128(m, (2 * k - 2) as nat);
        lemma_mat_mul_assoc128(mat_pow128(m, (2 * k - 2) as nat), m, m);
        assert(mat_pow128(m, 2 * k) == mat_mul128(mat_pow128(m, (2 * k - 1) as nat), m));
        assert(mat_pow128(m, (2 * k - 1) as nat) == mat_mul128(mat_pow128(m, (2 * k - 2) as nat), m));
    }
}

/// The mask implied by an operation alone: the bits that survive it.
pub open spec fn xs_default_mask128(op: XorShiftOp) -> u128 {
    match op {
        XorShiftOp::Ident => 0xffff_ffff_ffff_ffff_ffff_ffff_ffff_ffffu128,
        XorShiftOp::Shl(k) => 0xffff_ffff_ffff_ffff_ffff_ffff_ffff_ffffu128 >> (k as u128),
        XorShiftOp::Shr(k) => 0xffff_ffff_ffff_ffff_ffff_ffff_ffff_ffffu128 << (k as u128),
    }
}

/// The matrix of one decomposition item: the identity restricted to the
/// mask (the item's own, or the operation's default), then column-shifted.
pub open spec fn xs_item_rows128(mask: Option<u128>, op: XorShiftOp) -> Seq<u128> {
    let m = match mask {
        Some(m) => m,
        None => xs_default_mask128(op),
    };
    match op {
        XorShiftOp::Ident => and_rows128(eye128(), m),
        XorShiftOp::Shl(k) => shl_rows128(and_rows128(eye128(), m), (k as u128)),
        XorShiftOp::Shr(k) => shr_rows128(and_rows128(eye128(), m), (k as u128)),
    }
}

/// The matrix a decomposition stands for: the XOR of its items' matrices.
pub open spec fn xs_reconstruct128(items: Seq<(Option<u128>, XorShiftOp)>) -> Seq<u128>
    decreases items.len(),
{
    if items.len() == 0 {
        zero_rows128()
    } else {
        xor_rows128(
            xs_reconstruct128(items.drop_last()),
            xs_item_rows128(items.last().0, items.last().1),
        )
    }
}

/// A unit bit against a run mask, and unit bits under column shifts.
#[verifier::rlimit(100)]
proof fn lemma_xs_bits128(r: u128, ii: u128, last: u128, d: u128)
    by (bit_vector)
    requires
        ii < 128,
        1 <= last,
        ii + last <= 128,
        r < 128,
    ensures
        ((1u128 << r) & ((0xffff_ffff_ffff_ffff_ffff_ffff_ffff_ffffu128 >> ((128 - last) as u128)) << ii)) == (if ii <= r && r < ii
            + last {
            1u128 << r
        } else {
            0u128
        }),
        r + d < 128 ==> ((1u128 << r) << d) == (1u128 << ((r + d) as u128)),
        d <= r ==> ((1u128 << r) >> d) == (1u128 << ((r - d) as u128)),
        (0u128 << d) == 0u128,
        (0u128 >> d) == 0u128,
{
}

/// Clearing the diagonal bit of a row whose lower bits are already clear
/// clears one more low bit.
proof fn lemma_xs_clear_step128(v: u128, jj: u128)
    by (bit_vector)
    requires
        jj < 128,
    ensures
        v & lowmask128(jj) == 0 && (v >> jj) & 1 == 1 ==> (v ^ (1u128 << jj)) & lowmask128(
            (jj + 1) as u128,
        ) == 0,
        v & lowmask128(jj) == 0 && (v >> jj) & 1 != 1 ==> v & lowmask128((jj + 1) as u128) == 0,
{
}

/// The result of XORing row `src` into row `dst`.
pub open spec fn rowxor128(m: Seq<u128>, dst: int, src: int) -> Seq<u128> {
    m.update(dst, m[dst] ^ m[src])
}

/// The elementary matrix of that row operation.
pub open spec fn exor128(dst: int, src: int) -> Seq<u128> {
    eye128().update(dst, (1u128 << (dst as u128)) ^ (1u128 << (src as u128)))
}

/// The result of swapping rows `i` and `j`.
pub open spec fn swapped128(m: Seq<u128>, i: int, j: int) -> Seq<u128> {
    m.update(i, m[j]).update(j, m[i])
}

/// The elementary matrix of the swap.
pub open spec fn eswap128(i: int, j: int) -> Seq<u128> {
    eye128().update(i, 1u128 << (j as u128)).update(j, 1u128 << (i as u128))
}

/// Left-multiplying by the elementary XOR matrix performs the row
/// operation.
proof fn lemma_exor_action128(m: Seq<u128>, d: int, s: int)
    requires
        m.len() == 128,
        0 <= d < 128,
        0 <= s < 128,
        d != s,
    ensures
        mat_mul128(exor128(d, s), m) == rowxor128(m, d, s),
{
    let e = exor128(d, s);
    assert forall|k: int| 0 <= k < 128 implies mat_mul128(e, m)[k] == rowxor128(m, d, s)[k] by {
        if k == d {
            lemma_vm_prefix_xor_vec128(1u128 << (d as u128), 1u128 << (s as u128), m, 128);
            lemma_vec_mul_unit128(d as u128, m);
            lemma_vec_mul_unit128(s as u128, m);
        } else {
            lemma_vec_mul_unit128(k as u128, m);
        }
    }
    assert(mat_mul128(e, m) =~= rowxor128(m, d, s));
}

/// The elementary XOR matrix is its own inverse.
proof fn lemma_exor_self128(d: int, s: int)
    requires
        0 <= d < 128,
        0 <= s < 128,
        d != s,
    ensures
        mat_mul128(exor128(d, s), exor128(d, s)) == eye128(),
{
    let e = exor128(d, s);
    lemma_exor_action128(e, d, s);
    lemma_xor_mini128();
    assert(rowxor128(e, d, s) =~= eye128());
}

/// Left-multiplying by the elementary swap matrix swaps the rows.
proof fn lemma_eswap_action128(m: Seq<u128>, i: int, j: int)
    requires
        m.len() == 128,
        0 <= i < 128,
        0 <= j < 128,
    ensures
        mat_mul128(eswap128(i, j), m) == swapped128(m, i, j),
{
    let e = eswap128(i, j);
    assert forall|k: int| 0 <= k < 128 implies mat_mul128(e, m)[k] == swapped128(m, i, j)[k] by {
        if k == j {
            lemma_vec_mul_unit128(i as u128, m);
        } else if k == i {
            lemma_vec_mul_unit128(j as u128, m);
        } else {
            lemma_vec_mul_unit128(k as u128, m);
        }
    }
    assert(mat_mul128(e, m) =~= swapped128(m, i, j));
}

/// The elementary swap matrix is its own inverse.
proof fn lemma_eswap_self128(i: int, j: int)
    requires
        0 <= i < 128,
        0 <= j < 128,
    ensures
        mat_mul128(eswap128(i, j), eswap128(i, j)) == eye128(),
{
    let e = eswap128(i, j);
    lemma_eswap_action128(e, i, j);
    assert(swapped128(e, i, j) =~= eye128());
}

/// A row operation on a matrix with a certified right inverse leaves a
/// matrix with a certified right inverse: the elementary matrix, its own
/// inverse, is folded into the certificate from the right.
proof fn lemma_rowxor_keeps_inverse128(a: Seq<u128>, b: Seq<u128>, d: int, s: int)
    requires
        a.len() == 128,
        b.len() == 128,
        0 <= d < 128,
        0 <= s < 128,
        d != s,
        mat_mul128(a, b) == eye128(),
    ensures
        mat_mul128(rowxor128(a, d, s), mat_mul128(b, exor128(d, s))) == eye128(),
{
    let e = exor128(d, s);
    lemma_exor_action128(a, d, s);
    lemma_mat_mul_assoc128(e, a, mat_mul128(b, e));
    lemma_mat_mul_assoc128(a, b, e);
    lemma_mat_mul_eye128(e);
    lemma_exor_self128(d, s);
}

/// The same, for a swap of two rows.
proof fn lemma_swap_keeps_inverse128(a: Seq<u128>, b: Seq<u128>, i: int, j: int)
    requires
        a.len() == 128,
        b.len() == 128,
        0 <= i < 128,
        0 <= j < 128,
        mat_mul128(a, b) == eye128(),
    ensures
        mat_mul128(swapped128(a, i, j), mat_mul128(b, eswap128(i, j))) == eye128(),
{
    let e = eswap128(i, j);
    lemma_eswap_action128(a, i, j);
    lemma_mat_mul_assoc128(e, a, mat_mul128(b, e));
    lemma_mat_mul_assoc128(a, b, e);
    lemma_mat_mul_eye128(e);
    lemma_eswap_self128(i, j);
}

/// Every row of a matrix with a certified right inverse is nonzero.
proof fn lemma_right_invertible_rows_nonzero128(a: Seq<u128>, b: Seq<u128>, j: int)
    requires
        a.len() == 128,
        b.len() == 128,
        0 <= j < 128,
        mat_mul128(a, b) == eye128(),
    ensures
        a[j] != 0u128,
{
    if a[j] == 0u128 {
        lemma_vm_prefix_zero128(b, 128);
        assert(mat_mul128(a, b)[j] == vec_mul128(a[j], b));
        let ju = j as u128;
        lemma_bit_facts128();
        assert(bit128(1u128 << ju, ju));
        assert(!bit128(0u128, ju));
    }
}

/// Mask bookkeeping for one step of Gauss-Jordan elimination.
proof fn lemma_elim_bits128(v: u128, w: u128, c: u128, k: u128)
    by (bit_vector)
    requires
        c < 128,
        k < 128,
    ensures
        v & lowmask128(0) == 0,
        v & lowmask128(c) == 0 && w & lowmask128(c) == 0 ==> (v ^ w) & lowmask128(c) == 0,
        v & lowmask128(c) == 0 && (v >> c) & 1 != 1 ==> v & lowmask128((c + 1) as u128) == 0,
        v & lowmask128(c) == 0 && (v >> c) & 1 == 1 ==> v & lowmask128((c + 1) as u128) == 1u128 << c,
        (v >> c) & 1 == 1 && (w >> c) & 1 == 1 ==> ((v ^ w) >> c) & 1 != 1,
        v & lowmask128(c) == (1u128 << k) && w & lowmask128(c) == 0 ==> (v ^ w) & lowmask128(c) == (
        1u128 << k),
        v & lowmask128(c) == (1u128 << k) && (v >> c) & 1 != 1 ==> v & lowmask128((c + 1) as u128) == (
        1u128 << k),
{
}

/// A nonzero vector that the matrix maps to zero rules out any right
/// inverse: were `a * b == I`, multiplying the vector through both sides
/// would make it zero and itself at once.
pub proof fn lemma_left_kernel_singular128(a: Seq<u128>, u: u128)
    requires
        a.len() == 128,
        u != 0u128,
        vec_mul128(u, a) == 0u128,
    ensures
        forall|b: Seq<u128>| b.len() == 128 ==> mat_mul128(a, b) != eye128(),
{
    assert forall|b: Seq<u128>| b.len() == 128 implies mat_mul128(a, b) != eye128() by {
        if mat_mul128(a, b) == eye128() {
            lemma_vec_mul_assoc128(u, a, b);
            lemma_vm_prefix_zero128(b, 128);
            lemma_vec_mul_eye128(u);
            assert(false);
        }
    }
}

/// A GF(2) square bit-matrix of order 128: 128 rows, each a `u128`.
pub struct BitMatrix128 {
    rows: Vec<u128>,
}

impl View for BitMatrix128 {
    type V = Seq<u128>;

    closed spec fn view(&self) -> Seq<u128> {
        self.rows@
    }
}

impl Clone for BitMatrix128 {
    fn clone(&self) -> (r: Self)
        ensures
            r@ == self@,
    {
        let mut rows: Vec<u128> = Vec::new();
        let mut i: usize = 0;
        while i < self.rows.len()
            invariant
                i <= self.rows@.len(),
                rows@ == self.rows@.take(i as int),
            decreases self.rows@.len() - i,
        {
            rows.push(self.rows[i]);
            i += 1;
        }
        proof {
            assert(rows@ =~= self.rows@);
        }
        BitMatrix128 { rows }
    }
}

impl BitMatrix128 {
    /// A matrix holds exactly 128 rows.
    pub open spec fn wf(&self) -> bool {
        self@.len() == 128
    }

    /// Row `i`.
    pub fn row(&self, i: usize) -> (r: u128)
        requires
            self.wf(),
            i < 128,
        ensures
            r == self@[i as int],
    {
        self.rows[i]
    }

    /// A matrix made of the given 128 rows.
    pub fn from_rows(rows: Vec<u128>) -> (r: Self)
        requires
            rows@.len() == 128,
        ensures
            r.wf(),
            r@ == rows@,
    {
        BitMatrix128 { rows }
    }

    /// The all-zero matrix.
    pub fn zero() -> (r: Self)
        ensures
            r.wf(),
            r@ == zero_rows128(),
    {
        let mut rows: Vec<u128> = Vec::new();
        let mut i: usize = 0;
        while i < 128
            invariant
                i <= 128,
                rows@.len() == i,
                forall|j: int| 0 <= j < i ==> rows@[j] == 0u128,
            decreases 128 - i,
        {
            rows.push(0u128);
            i += 1;
        }
        let r = BitMatrix128 { rows };
        proof {
            assert(r@ =~= zero_rows128());
        }
        r
    }

    /// The identity matrix.
    pub fn eye() -> (r: Self)
        ensures
            r.wf(),
            r@ == eye128(),
    {
        let mut rows: Vec<u128> = Vec::new();
        let mut i: usize = 0;
        while i < 128
            invariant
                i <= 128,
                rows@.len() == i,
                forall|j: int| 0 <= j < i ==> rows@[j] == 1u128 << (j as u128),
            decreases 128 - i,
        {
            rows.push(1u128 << (i as u128));
            i += 1;
        }
        let r = BitMatrix128 { rows };
        proof {
            assert(r@ =~= eye128());
        }
        r
    }

    /// The matrix of the map `v -> v >> bits`: the identity, column-shifted.
    pub fn shr(bits: u128) -> (r: Self)
        requires
            bits < 128,
        ensures
            r.wf(),
            r@ == shr_rows128(eye128(), bits),
    {
        Self::eye().shift_right(bits)
    }

    /// The matrix of the map `v -> v << bits`: the identity, column-shifted.
    pub fn shl(bits: u128) -> (r: Self)
        requires
            bits < 128,
        ensures
            r.wf(),
            r@ == shl_rows128(eye128(), bits),
    {
        Self::eye().shift_left(bits)
    }

    /// AND every row with `mask`: restricts the domain bits of the map.
    pub fn and(&self, mask: u128) -> (r: Self)
        requires
            self.wf(),
        ensures
            r.wf(),
            r@ == and_rows128(self@, mask),
    {
        let mut rows: Vec<u128> = Vec::new();
        let mut i: usize = 0;
        while i < 128
            invariant
                self.wf(),
                i <= 128,
                rows@.len() == i,
                forall|j: int| 0 <= j < i ==> rows@[j] == self@[j] & mask,
            decreases 128 - i,
        {
            rows.push(self.rows[i] & mask);
            i += 1;
        }
        let r = BitMatrix128 { rows };
        proof {
            assert(r@ =~= and_rows128(self@, mask));
        }
        r
    }

    /// Componentwise XOR of two matrices.
    pub fn xor(&self, other: &Self) -> (r: Self)
        requires
            self.wf(),
            other.wf(),
        ensures
            r.wf(),
            r@ == xor_rows128(self@, other@),
    {
        let mut rows: Vec<u128> = Vec::new();
        let mut i: usize = 0;
        while i < 128
            invariant
                self.wf(),
                other.wf(),
                i <= 128,
                rows@.len() == i,
                forall|j: int| 0 <= j < i ==> rows@[j] == (self@[j] ^ other@[j]),
            decreases 128 - i,
        {
            rows.push(self.rows[i] ^ other.rows[i]);
            i += 1;
        }
        let r = BitMatrix128 { rows };
        proof {
            assert(r@ =~= xor_rows128(self@, other@));
        }
        r
    }

    /// Shift every row left by `bits`: shifts the column coordinate up.
    pub fn shift_left(&self, bits: u128) -> (r: Self)
        requires
            self.wf(),
            bits < 128,
        ensures
            r.wf(),
            r@ == shl_rows128(self@, bits),
    {
        let mut rows: Vec<u128> = Vec::new();
        let mut i: usize = 0;
        while i < 128
            invariant
                self.wf(),
                bits < 128,
                i <= 128,
                rows@.len() == i,
                forall|j: int| 0 <= j < i ==> rows@[j] == (self@[j] << bits),
            decreases 128 - i,
        {
            rows.push(self.rows[i] << bits);
            i += 1;
        }
        let r = BitMatrix128 { rows };
        proof {
            assert(r@ =~= shl_rows128(self@, bits));
        }
        r
    }

    /// Shift every row right by `bits`: shifts the column coordinate down.
    pub fn shift_right(&self, bits: u128) -> (r: Self)
        requires
            self.wf(),
            bits < 128,
        ensures
            r.wf(),
            r@ == shr_rows128(self@, bits),
    {
        let mut rows: Vec<u128> = Vec::new();
        let mut i: usize = 0;
        while i < 128
            invariant
                self.wf(),
                bits < 128,
                i <= 128,
                rows@.len() == i,
                forall|j: int| 0 <= j < i ==> rows@[j] == (self@[j] >> bits),
            decreases 128 - i,
        {
            rows.push(self.rows[i] >> bits);
            i += 1;
        }
        let r = BitMatrix128 { rows };
        proof {
            assert(r@ =~= shr_rows128(self@, bits));
        }
        r
    }

    /// Slide the rows down by `much`; the vacated rows are zero.
    pub fn shd(&self, much: usize) -> (r: Self)
        requires
            self.wf(),
            much <= 128,
        ensures
            r.wf(),
            r@ == shd_rows128(self@, much as int),
    {
        let mut rows: Vec<u128> = Vec::new();
        let mut i: usize = 0;
        while i < 128
            invariant
                self.wf(),
                much <= 128,
                i <= 128,
                rows@.len() == i,
                forall|j: int| 0 <= j < i ==> rows@[j] == shd_rows128(self@, much as int)[j],
            decreases 128 - i,
        {
            let val = if i < much {
                0u128
            } else {
                self.rows[i - much]
            };
            rows.push(val);
            i += 1;
        }
        let r = BitMatrix128 { rows };
        proof {
            assert(r@ =~= shd_rows128(self@, much as int));
        }
        r
    }

    /// Slide the rows up by `much`; the vacated rows are zero.
    pub fn shu(&self, much: usize) -> (r: Self)
        requires
            self.wf(),
            much <= 128,
        ensures
            r.wf(),
            r@ == shu_rows128(self@, much as int),
    {
        let mut rows: Vec<u128> = Vec::new();
        let mut i: usize = 0;
        while i < 128
            invariant
                self.wf(),
                much <= 128,
                i <= 128,
                rows@.len() == i,
                forall|j: int| 0 <= j < i ==> rows@[j] == shu_rows128(self@, much as int)[j],
            decreases 128 - i,
        {
            let val = if i + much < 128 {
                self.rows[i + much]
            } else {
                0u128
            };
            rows.push(val);
            i += 1;
        }
        let r = BitMatrix128 { rows };
        proof {
            assert(r@ =~= shu_rows128(self@, much as int));
        }
        r
    }

    /// Delete rows `s..e`, sliding the higher rows down; used to drop
    /// under-constrained input bits.
    pub fn vskip(&self, s: usize, e: usize) -> (r: Self)
        requires
            self.wf(),
            s <= e <= 128,
        ensures
            r.wf(),
            r@ == vskip_rows128(self@, s as int, e as int),
    {
        let mut rows: Vec<u128> = Vec::new();
        let mut i: usize = 0;
        while i < 128
            invariant
                self.wf(),
                s <= e <= 128,
                i <= 128,
                rows@.len() == i,
                forall|j: int| 0 <= j < i ==> rows@[j] == vskip_rows128(self@, s as int, e as int)[j],
            decreases 128 - i,
        {
            let val = if i < s {
                self.rows[i]
            } else if i + (e - s) < 128 {
                self.rows[i + (e - s)]
            } else {
                0u128
            };
            rows.push(val);
            i += 1;
        }
        let r = BitMatrix128 { rows };
        proof {
            assert(r@ =~= vskip_rows128(self@, s as int, e as int));
        }
        r
    }

    /// Keep only column bits `s..e` of every row, clearing the others.
    pub fn select(&self, s: u128, e: u128) -> (r: Self)
        requires
            self.wf(),
            s <= e <= 128,
        ensures
            r.wf(),
            r@ == and_rows128(self@, range_mask128(s, e)),
    {
        let lo = lowmask_exec(s);
        let hi = lowmask_exec(e);
        self.and(hi & !lo)
    }

    /// Delete column bits `s..e` of every row, compacting the higher columns
    /// down; used to drop under-constrained output bits.
    pub fn hskip(&self, s: u128, e: u128) -> (r: Self)
        requires
            self.wf(),
            s <= e <= 128,
        ensures
            r.wf(),
            r@ == hskip_rows128(self@, s, e),
    {
        let lo = lowmask_exec(s);
        let mut rows: Vec<u128> = Vec::new();
        let mut i: usize = 0;
        while i < 128
            invariant
                self.wf(),
                s <= e <= 128,
                lo == lowmask128(s),
                i <= 128,
                rows@.len() == i,
                forall|j: int| 0 <= j < i ==> rows@[j] == hskip_bits128(self@[j], s, e),
            decreases 128 - i,
        {
            let v = self.rows[i];
            let val = if e >= 128 {
                v & lo
            } else {
                (v & lo) | ((v >> e) << s)
            };
            rows.push(val);
            i += 1;
        }
        let r = BitMatrix128 { rows };
        proof {
            assert(r@ =~= hskip_rows128(self@, s, e));
        }
        r
    }

    /// The product `v * self`.
    pub fn vec_mul(&self, v: u128) -> (r: u128)
        requires
            self.wf(),
        ensures
            r == vec_mul128(v, self@),
    {
        let mut out: u128 = 0;
        let mut i: usize = 0;
        while i < 128
            invariant
                self.wf(),
                i <= 128,
                out == vm_prefix128(v, self@, i as int),
            decreases 128 - i,
        {
            proof {
                lemma_xor_basics128();
            }
            if (v >> (i as u128)) & 1 == 1 {
                out = out ^ self.rows[i];
            }
            i += 1;
        }
        out
    }

    /// Matrix product: row `i` of the result is `self[i] * other`.
    pub fn mul(&self, other: &Self) -> (r: Self)
        requires
            self.wf(),
            other.wf(),
        ensures
            r.wf(),
            r@ == mat_mul128(self@, other@),
    {
        let mut rows: Vec<u128> = Vec::new();
        let mut i: usize = 0;
        while i < 128
            invariant
                self.wf(),
                other.wf(),
                i <= 128,
                rows@.len() == i,
                forall|j: int| 0 <= j < i ==> rows@[j] == vec_mul128(self@[j], other@),
            decreases 128 - i,
        {
            rows.push(other.vec_mul(self.rows[i]));
            i += 1;
        }
        let r = BitMatrix128 { rows };
        proof {
            assert(r@ =~= mat_mul128(self@, other@));
        }
        r
    }

    /// `self` to the `n`-th power, by binary exponentiation.
    pub fn pow(&self, n: usize) -> (r: Self)
        requires
            self.wf(),
        ensures
            r.wf(),
            r@ == mat_pow128(self@, n as nat),
    {
        let mut base = self.clone();
        let mut out = Self::eye();
        let mut p = n;
        proof {
            lemma_mat_pow_len128(self@, n as nat);
            lemma_mat_mul_eye128(mat_pow128(self@, n as nat));
        }
        while p > 0
            invariant
                base.wf(),
                out.wf(),
                mat_mul128(out@, mat_pow128(base@, p as nat)) == mat_pow128(self@, n as nat),
            decreases p,
        {
            proof {
                lemma_usize_shift_half(p);
                lemma_mat_pow_len128(base@, (p / 2) as nat);
                lemma_mat_pow_len128(base@, p as nat);
                lemma_mat_pow_square128(base@, (p / 2) as nat);
                if p % 2 == 1 {
                    lemma_mat_pow_left128(base@, (p - 1) as nat);
                    lemma_mat_pow_len128(base@, (p - 1) as nat);
                    lemma_mat_mul_assoc128(out@, base@, mat_pow128(base@, (p - 1) as nat));
                }
            }
            if p & 1 == 1 {
                out = out.mul(&base);
            }
            base = base.mul(&base);
            p = p >> 1;
        }
        proof {
            lemma_mat_mul_eye128(out@);
        }
        out
    }

    /// Invert by Gauss-Jordan elimination over GF(2).  The candidate
    /// accumulates the row operations applied to a working copy, so every
    /// working row is the candidate row times the input; a ghost inverse of
    /// the accumulated operations witnesses that no candidate row is zero.
    /// If every column yields a pivot the working copy ends as the
    /// identity, which proves the candidate a left inverse, and the right
    /// side is certified by multiplication.  Otherwise some working row
    /// ends zero, and its nonzero candidate row is a left-kernel vector:
    /// `Err` is returned only with the matrix proved singular.
    #[verifier::rlimit(100)]
    pub fn inv(&self) -> (r: Result<Self, Error>)
        requires
            self.wf(),
        ensures
            match r {
                Ok(m) => m.wf() && mat_mul128(self@, m@) == eye128() && mat_mul128(m@, self@)
                    == eye128(),
                Err(Error::MatrixNotInvertible { stuck_at_col }) => stuck_at_col < 128 && forall|
                    b: Seq<u128>,
                |
                    b.len() == 128 ==> mat_mul128(self@, b) != eye128(),
            },
    {
        let mut tmp = self.clone();
        let mut inv = Self::eye();
        let ghost mut invb: Seq<u128> = eye128();
        let mut rank: usize = 0;
        let mut stuck: usize = 128;
        proof {
            lemma_mat_mul_eye128(eye128());
            assert forall|j: int| 0 <= j < 128 implies tmp@[j] == vec_mul128(
                #[trigger] inv@[j],
                self@,
            ) by {
                lemma_vec_mul_unit128(j as u128, self@);
            }
            assert forall|j: int| 0 <= j < 128 implies #[trigger] tmp@[j] & lowmask128(0)
                == 0u128 by {
                lemma_elim_bits128(tmp@[j], 0u128, 0u128, 0u128);
            }
        }
        let mut c: usize = 0;
        while c < 128
            invariant
                self.wf(),
                tmp.wf(),
                inv.wf(),
                rank <= c <= 128,
                invb.len() == 128,
                mat_mul128(inv@, invb) == eye128(),
                forall|j: int| 0 <= j < 128 ==> tmp@[j] == vec_mul128(#[trigger] inv@[j], self@),
                forall|j: int|
                    rank <= j < 128 ==> #[trigger] tmp@[j] & lowmask128(c as u128) == 0u128,
                stuck <= 128,
                stuck < 128 ==> rank < c,
                stuck == 128 ==> rank == c && forall|k: int|
                    0 <= k < rank ==> #[trigger] tmp@[k] & lowmask128(c as u128) == (1u128 << (
                    k as u128)),
            decreases 128 - c,
        {
            // find the first row at or below `rank` with bit c set
            let mut pos: usize = 128;
            let mut jj: usize = rank;
            while jj < 128
                invariant
                    tmp.wf(),
                    rank <= jj <= 128,
                    c < 128,
                    pos == 128 || (rank <= pos < 128 && (tmp@[pos as int] >> (c as u128)) & 1u128
                        == 1u128),
                    pos == 128 ==> forall|j: int|
                        rank <= j < jj ==> (#[trigger] tmp@[j] >> (c as u128)) & 1u128 != 1u128,
                decreases 128 - jj,
            {
                if pos == 128 && (tmp.rows[jj] >> (c as u128)) & 1 == 1 {
                    pos = jj;
                }
                jj += 1;
            }
            if pos == 128 {
                // no pivot: the column is skipped and the rank falls short
                if stuck == 128 {
                    stuck = c;
                }
                proof {
                    assert forall|j: int| rank <= j < 128 implies #[trigger] tmp@[j] & lowmask128(
                        (c + 1) as u128,
                    ) == 0u128 by {
                        lemma_elim_bits128(tmp@[j], 0u128, c as u128, 0u128);
                    }
                }
            } else {
                // move the pivot row up to row `rank`
                let ghost tmp_s = tmp@;
                let ghost inv_s = inv@;
                let a = tmp.rows[rank];
                let b = tmp.rows[pos];
                tmp.rows[rank] = b;
                tmp.rows[pos] = a;
                let a = inv.rows[rank];
                let b = inv.rows[pos];
                inv.rows[rank] = b;
                inv.rows[pos] = a;
                proof {
                    assert(tmp@ =~= swapped128(tmp_s, rank as int, pos as int));
                    assert(inv@ =~= swapped128(inv_s, rank as int, pos as int));
                    lemma_swap_keeps_inverse128(inv_s, invb, rank as int, pos as int);
                    invb = mat_mul128(invb, eswap128(rank as int, pos as int));
                    assert forall|j: int| 0 <= j < 128 implies tmp@[j] == vec_mul128(
                        #[trigger] inv@[j],
                        self@,
                    ) by {
                        if j == rank as int {
                            assert(inv@[j] == inv_s[pos as int]);
                        } else if j == pos as int {
                            assert(inv@[j] == inv_s[rank as int]);
                        }
                    }
                }
                // clear bit c from every other row
                let mut jj: usize = 0;
                while jj < 128
                    invariant
                        self.wf(),
                        tmp.wf(),
                        inv.wf(),
                        rank <= c < 128,
                        jj <= 128,
                        invb.len() == 128,
                        mat_mul128(inv@, invb) == eye128(),
                        forall|j: int|
                            0 <= j < 128 ==> tmp@[j] == vec_mul128(#[trigger] inv@[j], self@),
                        tmp@[rank as int] & lowmask128(c as u128) == 0u128,
                        (tmp@[rank as int] >> (c as u128)) & 1u128 == 1u128,
                        forall|j: int|
                            rank <= j < 128 ==> #[trigger] tmp@[j] & lowmask128(c as u128) == 0u128,
                        forall|j: int|
                            0 <= j < jj && j != rank ==> (#[trigger] tmp@[j] >> (c as u128)) & 1u128
                                != 1u128,
                        stuck <= 128,
                        stuck < 128 ==> rank < c,
                        stuck == 128 ==> rank == c && forall|k: int|
                            0 <= k < rank ==> #[trigger] tmp@[k] & lowmask128(c as u128) == (1u128 << (
                            k as u128)),
                    decreases 128 - jj,
                {
                    if jj != rank && (tmp.rows[jj] >> (c as u128)) & 1 == 1 {
                        let ghost tmp_s = tmp@;
                        let ghost inv_s = inv@;
                        let piv = tmp.rows[rank];
                        tmp.rows[jj] = tmp.rows[jj] ^ piv;
                        let pivi = inv.rows[rank];
                        inv.rows[jj] = inv.rows[jj] ^ pivi;
                        proof {
                            assert(tmp@ =~= rowxor128(tmp_s, jj as int, rank as int));
                            assert(inv@ =~= rowxor128(inv_s, jj as int, rank as int));
                            lemma_rowxor_keeps_inverse128(inv_s, invb, jj as int, rank as int);
                            invb = mat_mul128(invb, exor128(jj as int, rank as int));
                            lemma_vm_prefix_xor_vec128(
                                inv_s[jj as int],
                                inv_s[rank as int],
                                self@,
                                128,
                            );
                            lemma_elim_bits128(
                                tmp_s[jj as int],
                                tmp_s[rank as int],
                                c as u128,
                                jj as u128,
                            );
                        }
                    }
                    jj += 1;
                }
                proof {
                    // the pivot row joins the solved block; every other row
                    // extends its cleared mask past column c
                    lemma_elim_bits128(tmp@[rank as int], 0u128, c as u128, 0u128);
                    assert forall|j: int| rank + 1 <= j < 128 implies #[trigger] tmp@[j]
                        & lowmask128((c + 1) as u128) == 0u128 by {
                        lemma_elim_bits128(tmp@[j], 0u128, c as u128, 0u128);
                    }
                    if stuck == 128 {
                        assert forall|k: int| 0 <= k < rank implies #[trigger] tmp@[k] & lowmask128(
                            (c + 1) as u128,
                        ) == (1u128 << (k as u128)) by {
                            lemma_elim_bits128(tmp@[k], 0u128, c as u128, k as u128);
                        }
                    }
                }
                rank += 1;
            }
            c += 1;
        }
        if rank < 128 {
            // a zero working row remains: its candidate row, nonzero by the
            // ghost certificate, maps to zero through the input
            proof {
                lemma_xor_basics128();
                assert(tmp@[rank as int] & lowmask128(128) == 0u128);
                assert(tmp@[rank as int] == 0u128);
                lemma_right_invertible_rows_nonzero128(inv@, invb, rank as int);
                lemma_left_kernel_singular128(self@, inv@[rank as int]);
            }
            return Err(Error::MatrixNotInvertible { stuck_at_col: stuck });
        }
        proof {
            // every column held a pivot: the working copy is the identity,
            // so the candidate is a left inverse
            lemma_xor_basics128();
            assert forall|k: int| 0 <= k < 128 implies vec_mul128(#[trigger] inv@[k], self@)
                == eye128()[k] by {
                assert(tmp@[k] & lowmask128(128) == (1u128 << (k as u128)));
            }
            assert(mat_mul128(inv@, self@) =~= eye128());
        }
        // certify the right side row by row; a failing row yields a
        // left-kernel vector through the proven left inverse
        let mut i: usize = 0;
        while i < 128
            invariant
                self.wf(),
                inv.wf(),
                i <= 128,
                mat_mul128(inv@, self@) == eye128(),
                forall|j: int| 0 <= j < i ==> vec_mul128(self@[j], inv@) == eye128()[j],
            decreases 128 - i,
        {
            let row = inv.vec_mul(self.rows[i]);
            if row != 1u128 << (i as u128) {
                proof {
                    let w = row ^ (1u128 << (i as u128));
                    lemma_xor_basics128();
                    lemma_vm_prefix_xor_vec128(row, 1u128 << (i as u128), self@, 128);
                    lemma_vec_mul_assoc128(self@[i as int], inv@, self@);
                    lemma_vec_mul_eye128(self@[i as int]);
                    lemma_vec_mul_unit128(i as u128, self@);
                    assert(vec_mul128(w, self@) == 0u128);
                    lemma_left_kernel_singular128(self@, w);
                }
                return Err(Error::MatrixNotInvertible { stuck_at_col: i });
            }
            i += 1;
        }
        proof {
            assert(mat_mul128(self@, inv@) =~= eye128());
        }
        Ok(inv)
    }

    /// Decompose the matrix into masked XOR-shift items that together
    /// compute the same linear map: scan the diagonals, clear each maximal
    /// run found, and emit one item for it.  The XOR of the items' matrices
    /// reconstructs the matrix exactly.
    #[verifier::rlimit(100)]
    #[verifier::rlimit(60)]
    pub fn xorshift_form(&self) -> (r: Vec<(Option<u128>, XorShiftOp)>)
        requires
            self.wf(),
        ensures
            xs_reconstruct128(r@) == self@,
    {
        let mut tmp = self.clone();
        let mut result: Vec<(Option<u128>, XorShiftOp)> = Vec::new();
        proof {
            lemma_xor_mini128();
            assert(xor_rows128(xs_reconstruct128(result@), tmp@) =~= self@);
        }
        let mut ii: usize = 0;
        while ii < 128
            invariant
                tmp.wf(),
                self.wf(),
                ii <= 128,
                forall|r: int| 0 <= r < ii ==> tmp@[r] == 0u128,
                xor_rows128(xs_reconstruct128(result@), tmp@) == self@,
            decreases 128 - ii,
        {
            proof {
                lemma_xor_mini128();
                assert(lowmask128(0) == 0u128) by (bit_vector);
            }
            let mut jj: usize = 0;
            while jj < 128
                invariant
                    tmp.wf(),
                    self.wf(),
                    ii < 128,
                    jj <= 128,
                    forall|r: int| 0 <= r < ii ==> tmp@[r] == 0u128,
                    tmp@[ii as int] & lowmask128(jj as u128) == 0u128,
                    xor_rows128(xs_reconstruct128(result@), tmp@) == self@,
                decreases 128 - jj,
            {
                proof {
                    lemma_xor_mini128();
                    lemma_xs_clear_step128(tmp@[ii as int], jj as u128);
                }
                if (tmp.row(ii) >> (jj as u128)) & 1 == 1 {
                    let len = 128 - (if ii > jj {
                        ii
                    } else {
                        jj
                    });
                    // measure the maximal run along the diagonal
                    let mut last: usize = 1;
                    while last < len && (tmp.row(ii + last) >> ((jj + last) as u128)) & 1 == 1
                        invariant
                            tmp.wf(),
                            ii < 128,
                            jj < 128,
                            len == 128 - (if ii > jj {
                                ii as int
                            } else {
                                jj as int
                            }),
                            1 <= last <= len,
                        decreases len - last,
                    {
                        last += 1;
                    }
                    // clear the run
                    let ghost tmp0 = tmp@;
                    let ghost res0 = result@;
                    let mut kk: usize = 0;
                    while kk < last
                        invariant
                            tmp.wf(),
                            ii < 128,
                            jj < 128,
                            1 <= last,
                            ii + last <= 128,
                            jj + last <= 128,
                            kk <= last,
                            tmp0.len() == 128,
                            forall|r: int|
                                0 <= r < 128 && !(ii <= r < ii + kk) ==> tmp@[r] == tmp0[r],
                            forall|r: int|
                                ii <= r < ii + kk ==> tmp@[r] == (tmp0[r] ^ (1u128 << ((jj + (r
                                    - (ii as int))) as u128))),
                        decreases last - kk,
                    {
                        let v = tmp.row(ii + kk);
                        tmp.rows[ii + kk] = v ^ (1u128 << ((jj + kk) as u128));
                        kk += 1;
                    }
                    // emit the item for the run
                    let op = if ii == jj {
                        XorShiftOp::Ident
                    } else if ii < jj {
                        XorShiftOp::Shl((jj - ii) as u32)
                    } else {
                        XorShiftOp::Shr((ii - jj) as u32)
                    };
                    let mask = (0xffff_ffff_ffff_ffff_ffff_ffff_ffff_ffffu128 >> ((128 - last) as u128)) << (ii as u128);
                    let dm = match op {
                        XorShiftOp::Ident => 0xffff_ffff_ffff_ffff_ffff_ffff_ffff_ffffu128,
                        XorShiftOp::Shl(k) => 0xffff_ffff_ffff_ffff_ffff_ffff_ffff_ffffu128 >> (k as u128),
                        XorShiftOp::Shr(k) => 0xffff_ffff_ffff_ffff_ffff_ffff_ffff_ffffu128 << (k as u128),
                    };
                    let entry = if mask == dm {
                        (None, op)
                    } else {
                        (Some(mask), op)
                    };
                    result.push(entry);
                    proof {
                        lemma_xor_mini128();
                        assert(result@.drop_last() =~= res0);
                        let item = xs_item_rows128(entry.0, entry.1);
                        let diff = Seq::new(
                            128,
                            |r: int|
                                if ii <= r < ii + last {
                                    1u128 << ((jj + (r - (ii as int))) as u128)
                                } else {
                                    0u128
                                },
                        );
                        assert forall|r: int| 0 <= r < 128 implies item[r] == diff[r] by {
                            lemma_xs_bits128(r as u128, ii as u128, last as u128, (if ii < jj {
                                (jj - ii) as u128
                            } else {
                                (ii - jj) as u128
                            }));
                        }
                        assert forall|r: int| 0 <= r < 128 implies tmp@[r] == (tmp0[r]
                            ^ item[r]) by {
                            assert(item[r] == diff[r]);
                        }
                        assert(xs_reconstruct128(result@) == xor_rows128(
                            xs_reconstruct128(res0),
                            item,
                        ));
                        assert forall|r: int| 0 <= r < 128 implies xor_rows128(
                            xs_reconstruct128(result@),
                            tmp@,
                        )[r] == self@[r] by {
                            assert(xor_rows128(xs_reconstruct128(res0), tmp0)[r] == self@[r]);
                            assert(xs_reconstruct128(res0).len() == 128);
                            let a = xs_reconstruct128(res0)[r];
                            let b = item[r];
                            let c = tmp0[r];
                            assert(((a ^ b) ^ (c ^ b)) == a ^ c);
                        }
                        assert(xor_rows128(xs_reconstruct128(result@), tmp@) =~= self@);
                        lemma_xs_clear_step128(tmp0[ii as int], jj as u128);
                        assert(tmp@[ii as int] == tmp0[ii as int] ^ (1u128 << (jj as u128)));
                    }
                }
                jj += 1;
            }
            proof {
                lemma_xor_mini128();
                assert(tmp@[ii as int] & lowmask128(128) == 0u128);
                assert(tmp@[ii as int] == 0u128);
            }
            ii += 1;
        }
        proof {
            lemma_xor_mini128();
            assert(xs_reconstruct128(result@).len() == 128);
            assert forall|r: int| 0 <= r < 128 implies xs_reconstruct128(result@)[r] == self@[r] by {
                assert(xor_rows128(xs_reconstruct128(result@), tmp@)[r] == self@[r]);
            }
            assert(xs_reconstruct128(result@) =~= self@);
        }
        result
    }
}

/// The `n` lowest bits, set; the executable form of `lowmask128`.
fn lowmask_exec(n: u128) -> (r: u128)
    ensures
        r == lowmask128(n),
{
    if n >= 128 {
        0xffff_ffff_ffff_ffff_ffff_ffff_ffff_ffffu128
    } else {
        proof {
            assert(1u128 << n >= 1) by (bit_vector)
                requires
                    n < 128,
            ;
        }
        (1u128 << n) - 1
    }
}

/// Shifting a `usize` right by one halves it; its lowest bit is the parity.
proof fn lemma_usize_shift_half(p: usize)
    by (bit_vector)
    ensures
        (p & 1) == p % 2,
        (p >> 1) == p / 2,
{
}

/// A certified inverse undoes the matrix's vector action:
/// `(v * a) * b == v` whenever `a * b == I`.
pub proof fn lemma_inverse_cancels128(v: u128, a: Seq<u128>, b: Seq<u128>)
    requires
        a.len() == 128,
        b.len() == 128,
        mat_mul128(a, b) == eye128(),
    ensures
        vec_mul128(vec_mul128(v, a), b) == v,
{
    lemma_vec_mul_assoc128(v, a, b);
    lemma_vec_mul_eye128(v);
}

} // verus!
