use vstd::prelude::*;

verus! {

/// One term of an XOR-shift decomposition of a GF(2) linear map: the map
/// `v -> v`, `v -> v >> k` or `v -> v << k`, applied to a masked part of
/// the input.
#[derive(Debug, Clone, Copy, PartialEq, Eq)]
pub enum XorShiftOp {
    Ident,
    Shr(u32),
    Shl(u32),
}

/// Failure of bit-matrix inversion.  `stuck_at_col` is the column at which
/// Gauss-Jordan elimination found no pivot, or, should the final
/// certification of the candidate inverse fail, the row at which the
/// product with the original differed from the identity.
#[derive(Debug, Clone, Copy, PartialEq, Eq)]
pub enum Error {
    MatrixNotInvertible { stuck_at_col: usize },
}

} // verus!
