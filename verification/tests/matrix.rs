use rng_recover::matrix::Error;
use rng_recover::matrix::XorShiftOp;
use rng_recover::matrix32::BitMatrix32;
use rng_recover::matrix64::BitMatrix64;
use rng_recover::matrix128::BitMatrix128;

#[test]
fn test_inv() {
    let matrix = BitMatrix64::eye().xor(&BitMatrix64::shl(4));
    let inv = matrix.inv().unwrap();
    let v: u64 = 0x1337133713371337;
    assert_eq!(inv.vec_mul(matrix.vec_mul(v)), v);
}

#[test]
fn test_inv_rejects_singular() {
    let r = BitMatrix64::zero().inv();
    assert!(matches!(r, Err(Error::MatrixNotInvertible { stuck_at_col: 0 })));
}

#[test]
fn test_vec_mul_eye() {
    let eye = BitMatrix32::eye();
    assert_eq!(eye.vec_mul(0xDEADBEEF), 0xDEADBEEF);
    assert_eq!(eye.vec_mul(0), 0);
}

#[test]
fn test_pow_square_of_shift() {
    // over GF(2), (I ^ S)^2 == I ^ S^2 because the cross terms cancel
    let m = BitMatrix32::eye().xor(&BitMatrix32::shl(1));
    let sq = m.pow(2);
    let expect = BitMatrix32::eye().xor(&BitMatrix32::shl(2));
    for i in 0usize..32 {
        assert_eq!(sq.row(i), expect.row(i));
    }
}

#[test]
fn test_pow_zero_is_eye() {
    let m = BitMatrix32::eye().xor(&BitMatrix32::shr(3));
    let p = m.pow(0);
    for i in 0usize..32 {
        assert_eq!(p.row(i), 1u32 << i);
    }
}

#[test]
fn test_row_shifts() {
    // shl(3) has row i = 1 << (i + 3); sliding down by 2 moves rows up in index
    let m = BitMatrix32::shl(3).shd(2);
    assert_eq!(m.row(0), 0);
    assert_eq!(m.row(1), 0);
    assert_eq!(m.row(5), 1 << 6);
    let u = BitMatrix32::shl(3).shu(2);
    assert_eq!(u.row(5), 1 << 10);
    assert_eq!(u.row(31), 0);
}

#[test]
fn test_select_masks_columns() {
    let m = BitMatrix32::eye().select(8, 16);
    for i in 0usize..32 {
        let expect = if i >= 8 && i < 16 { 1u32 << i } else { 0 };
        assert_eq!(m.row(i), expect);
    }
}

#[test]
fn test_vskip_hskip() {
    let m = BitMatrix32::eye().vskip(0, 1);
    // rows slide down: row i is now the old row i + 1
    assert_eq!(m.row(0), 1 << 1);
    assert_eq!(m.row(30), 1u32 << 31);
    assert_eq!(m.row(31), 0);
    let h = BitMatrix32::eye().hskip(4, 8);
    // columns 4..8 deleted: bit 8 compacts down to bit 4
    assert_eq!(h.row(8), 1 << 4);
    assert_eq!(h.row(3), 1 << 3);
    assert_eq!(h.row(5), 0);
}

#[test]
fn test_xorshift_form_reconstructs() {
    let m = BitMatrix32::eye()
        .xor(&BitMatrix32::shl(4))
        .xor(&BitMatrix32::shr(9).and(0xFFF0_0000));
    let items = m.xorshift_form();
    let mut acc = BitMatrix32::zero();
    for (mask, op) in items.iter() {
        let dm = match op {
            XorShiftOp::Ident => !0u32,
            XorShiftOp::Shl(k) => !0u32 >> k,
            XorShiftOp::Shr(k) => !0u32 << k,
        };
        let m_eff = mask.unwrap_or(dm);
        let base = BitMatrix32::eye().and(m_eff);
        let item = match op {
            XorShiftOp::Ident => base,
            XorShiftOp::Shl(k) => base.shift_left(*k),
            XorShiftOp::Shr(k) => base.shift_right(*k),
        };
        acc = acc.xor(&item);
    }
    for i in 0usize..32 {
        assert_eq!(acc.row(i), m.row(i));
    }
}

#[test]
fn test_xorshift_form_of_eye() {
    let items = BitMatrix32::eye().xorshift_form();
    assert_eq!(items.len(), 1);
    assert!(matches!(items[0], (None, XorShiftOp::Ident)));
}

#[test]
fn test_inv_rejects_singular_every_width() {
    assert!(matches!(
        BitMatrix32::zero().inv(),
        Err(Error::MatrixNotInvertible { stuck_at_col: 0 })
    ));
    assert!(matches!(
        BitMatrix128::zero().inv(),
        Err(Error::MatrixNotInvertible { stuck_at_col: 0 })
    ));
}

#[test]
fn test_inv_rejects_duplicated_row() {
    // rows 3 and 7 equal: elimination first finds no pivot in column 7
    let mut rows: Vec<u64> = (0..64u64).map(|i| 1u64 << i).collect();
    rows[7] = rows[3];
    let m = BitMatrix64::from_rows(rows);
    assert!(matches!(
        m.inv(),
        Err(Error::MatrixNotInvertible { stuck_at_col: 7 })
    ));
}
