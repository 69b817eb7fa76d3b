//! Arithmetic facts about row-major pixel grids.

use vstd::prelude::*;

verus! {

/// The index `y * stride + k` of a cell in row `y` decomposes back into row `y` and column `k`.
pub proof fn lemma_cell_index(y: int, k: int, stride: int)
    requires
        0 <= k < stride,
    ensures
        (y * stride + k) / stride == y,
        (y * stride + k) % stride == k,
{
    vstd::arithmetic::div_mod::lemma_fundamental_div_mod_converse(y * stride + k, stride, y, k);
}

/// A cell of one of the first `rows` rows lies before the end of those rows.
pub proof fn lemma_cell_in_rows(y: int, k: int, stride: int, rows: int)
    requires
        0 <= y < rows,
        0 <= k < stride,
    ensures
        0 <= y * stride,
        y * stride + k < rows * stride,
        y * stride + stride <= rows * stride,
{
    assert(0 <= y * stride && y * stride + stride <= rows * stride) by (nonlinear_arith)
        requires
            0 <= y < rows,
            0 <= stride,
    ;
}

/// Every index splits into a row and a column of a grid with a positive stride.
pub proof fn lemma_index_split(i: int, stride: int)
    requires
        0 <= i,
        0 < stride,
    ensures
        i == (i / stride) * stride + i % stride,
        0 <= i % stride < stride,
        0 <= i / stride,
{
    vstd::arithmetic::div_mod::lemma_fundamental_div_mod(i, stride);
    vstd::arithmetic::mul::lemma_mul_is_commutative(i / stride, stride);
    vstd::arithmetic::div_mod::lemma_mod_pos_bound(i, stride);
    vstd::arithmetic::div_mod::lemma_div_pos_is_pos(i, stride);
}

} // verus!
