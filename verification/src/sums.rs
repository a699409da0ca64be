//! Finite sums of integer sequences: extensionality, congruence modulo a
//! divisor, scaling, single-entry sums, and interchange of a double sum.
use vstd::prelude::*;
use vstd::arithmetic::div_mod::lemma_add_mod_noop;
use vstd::arithmetic::mul::lemma_mul_is_distributive_add_other_way;

verus! {

/// t[0] + t[1] + ... + t[m-1]; zero when m <= 0.
pub open spec fn wsum(t: Seq<int>, m: int) -> int
    decreases m,
{
    if m <= 0 {
        0
    } else {
        wsum(t, m - 1) + t[m - 1]
    }
}

/// A sum reads only the entries below its bound.
pub proof fn lemma_wsum_ext(t: Seq<int>, u: Seq<int>, m: int)
    requires
        forall|i: int| 0 <= i < m ==> t[i] == u[i],
    ensures
        wsum(t, m) == wsum(u, m),
    decreases m,
{
    if m > 0 {
        lemma_wsum_ext(t, u, m - 1);
    }
}

/// Sums of pointwise congruent sequences are congruent.
pub proof fn lemma_wsum_congruent(t: Seq<int>, u: Seq<int>, m: int, p: int)
    requires
        p > 0,
        forall|i: int| 0 <= i < m ==> t[i] % p == u[i] % p,
    ensures
        wsum(t, m) % p == wsum(u, m) % p,
    decreases m,
{
    if m > 0 {
        lemma_wsum_congruent(t, u, m - 1, p);
        lemma_add_mod_noop(wsum(t, m - 1), t[m - 1], p);
        lemma_add_mod_noop(wsum(u, m - 1), u[m - 1], p);
    }
}

/// Scaling every entry scales the sum.
pub proof fn lemma_wsum_scale(t: Seq<int>, s: Seq<int>, c: int, m: int)
    requires
        forall|i: int| 0 <= i < m ==> s[i] == t[i] * c,
    ensures
        wsum(s, m) == wsum(t, m) * c,
    decreases m,
{
    if m <= 0 {
    } else {
        lemma_wsum_scale(t, s, c, m - 1);
        lemma_mul_is_distributive_add_other_way(c, wsum(t, m - 1), t[m - 1]);
    }
}

/// A sum of zeros is zero.
pub proof fn lemma_wsum_zero(t: Seq<int>, m: int)
    requires
        forall|i: int| 0 <= i < m ==> t[i] == 0,
    ensures
        wsum(t, m) == 0,
    decreases m,
{
    if m > 0 {
        lemma_wsum_zero(t, m - 1);
    }
}

/// A sum whose entries vanish except at one index is that entry.
pub proof fn lemma_wsum_single(t: Seq<int>, k: int, m: int)
    requires
        0 <= k < m,
        forall|i: int| 0 <= i < m && i != k ==> t[i] == 0,
    ensures
        wsum(t, m) == t[k],
    decreases m,
{
    if m - 1 == k {
        lemma_wsum_zero(t, m - 1);
    } else {
        lemma_wsum_single(t, k, m - 1);
    }
}

/// The total of the first `cols` entries of each of the first `rows` rows
/// of a grid, row by row.
pub open spec fn grid_rows_sum(mat: Seq<Seq<int>>, rows: int, cols: int) -> int
    decreases rows,
{
    if rows <= 0 {
        0
    } else {
        grid_rows_sum(mat, rows - 1, cols) + wsum(mat[rows - 1], cols)
    }
}

/// The total of column `i` over the first `rows` rows.
pub open spec fn grid_col(mat: Seq<Seq<int>>, rows: int, i: int) -> int
    decreases rows,
{
    if rows <= 0 {
        0
    } else {
        grid_col(mat, rows - 1, i) + mat[rows - 1][i]
    }
}

/// The same grid total, column by column.
pub open spec fn grid_cols_sum(mat: Seq<Seq<int>>, rows: int, cols: int) -> int
    decreases cols,
{
    if cols <= 0 {
        0
    } else {
        grid_cols_sum(mat, rows, cols - 1) + grid_col(mat, rows, cols - 1)
    }
}

/// A sequence of row totals sums to the row-by-row grid total.
pub proof fn lemma_grid_rows_as_wsum(mat: Seq<Seq<int>>, t: Seq<int>, rows: int, cols: int)
    requires
        forall|j: int| 0 <= j < rows ==> t[j] == wsum(#[trigger] mat[j], cols),
    ensures
        wsum(t, rows) == grid_rows_sum(mat, rows, cols),
    decreases rows,
{
    if rows > 0 {
        lemma_grid_rows_as_wsum(mat, t, rows - 1, cols);
    }
}

/// A sequence holding one column's entries sums to that column's total.
pub proof fn lemma_grid_col_as_wsum(mat: Seq<Seq<int>>, t: Seq<int>, rows: int, i: int)
    requires
        forall|j: int| 0 <= j < rows ==> t[j] == #[trigger] mat[j][i],
    ensures
        wsum(t, rows) == grid_col(mat, rows, i),
    decreases rows,
{
    if rows > 0 {
        lemma_grid_col_as_wsum(mat, t, rows - 1, i);
    }
}

/// A sequence of column totals sums to the column-by-column grid total.
pub proof fn lemma_grid_cols_as_wsum(mat: Seq<Seq<int>>, t: Seq<int>, rows: int, cols: int)
    requires
        forall|i: int| 0 <= i < cols ==> t[i] == #[trigger] grid_col(mat, rows, i),
    ensures
        wsum(t, cols) == grid_cols_sum(mat, rows, cols),
    decreases cols,
{
    if cols > 0 {
        lemma_grid_cols_as_wsum(mat, t, rows, cols - 1);
    }
}

/// Peeling the last row off a column-by-column total.
proof fn lemma_grid_cols_sum_last(mat: Seq<Seq<int>>, rows: int, cols: int)
    requires
        rows >= 1,
    ensures
        grid_cols_sum(mat, rows, cols) == grid_cols_sum(mat, rows - 1, cols) + wsum(
            mat[rows - 1],
            cols,
        ),
    decreases cols,
{
    if cols > 0 {
        lemma_grid_cols_sum_last(mat, rows, cols - 1);
    }
}

/// With no rows, the column-by-column total is zero.
proof fn lemma_grid_cols_sum_empty(mat: Seq<Seq<int>>, cols: int)
    ensures
        grid_cols_sum(mat, 0, cols) == 0,
    decreases cols,
{
    if cols > 0 {
        lemma_grid_cols_sum_empty(mat, cols - 1);
    }
}

/// Interchange of a finite double sum: summing a grid row by row and
/// column by column give the same total.
pub proof fn lemma_grid_swap(mat: Seq<Seq<int>>, rows: int, cols: int)
    ensures
        grid_rows_sum(mat, rows, cols) == grid_cols_sum(mat, rows, cols),
    decreases rows,
{
    if rows <= 0 {
        lemma_grid_cols_sum_empty(mat, cols);
        if rows < 0 {
            lemma_grid_cols_sum_neg(mat, rows, cols);
        }
    } else {
        lemma_grid_swap(mat, rows - 1, cols);
        lemma_grid_cols_sum_last(mat, rows, cols);
    }
}

/// A negative row bound behaves as zero rows.
proof fn lemma_grid_cols_sum_neg(mat: Seq<Seq<int>>, rows: int, cols: int)
    requires
        rows <= 0,
    ensures
        grid_cols_sum(mat, rows, cols) == 0,
    decreases cols,
{
    if cols > 0 {
        lemma_grid_cols_sum_neg(mat, rows, cols - 1);
    }
}

} // verus!
