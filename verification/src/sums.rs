//! Sums over the squares of the board.

use vstd::prelude::*;

verus! {

/// The sum of `t(r, f)` over the first `n` files of rank `r`.
pub open spec fn cells_sum(t: spec_fn(int, int) -> int, r: int, n: int) -> int
    decreases n,
{
    if n <= 0 {
        0
    } else {
        cells_sum(t, r, n - 1) + t(r, n - 1)
    }
}

/// The sum of `t(r, f)` over all squares of the first `n` ranks.
pub open spec fn rows_sum(t: spec_fn(int, int) -> int, n: int) -> int
    decreases n,
{
    if n <= 0 {
        0
    } else {
        rows_sum(t, n - 1) + cells_sum(t, n - 1, 8)
    }
}

/// The sum of `t(r, f)` over all 64 squares.
pub open spec fn grid_sum(t: spec_fn(int, int) -> int) -> int {
    rows_sum(t, 8)
}

/// The greatest of 0 and the values `t(r, f)` over the first `n` files of rank `r`.
pub open spec fn cells_max(t: spec_fn(int, int) -> int, r: int, n: int) -> int
    decreases n,
{
    if n <= 0 {
        0
    } else if t(r, n - 1) > cells_max(t, r, n - 1) {
        t(r, n - 1)
    } else {
        cells_max(t, r, n - 1)
    }
}

/// The greatest of 0 and the values `t(r, f)` over all squares of the first `n` ranks.
pub open spec fn rows_max(t: spec_fn(int, int) -> int, n: int) -> int
    decreases n,
{
    if n <= 0 {
        0
    } else if cells_max(t, n - 1, 8) > rows_max(t, n - 1) {
        cells_max(t, n - 1, 8)
    } else {
        rows_max(t, n - 1)
    }
}

/// The greatest of 0 and the values `t(r, f)` over all 64 squares.
pub open spec fn grid_max(t: spec_fn(int, int) -> int) -> int {
    rows_max(t, 8)
}

/// The greatest value over part of a rank is at least every value there, and is one of
/// them or 0.
pub proof fn lemma_cells_max(t: spec_fn(int, int) -> int, r: int, n: int)
    requires
        0 <= n,
    ensures
        forall|j: int| 0 <= j < n ==> #[trigger] t(r, j) <= cells_max(t, r, n),
        cells_max(t, r, n) >= 0,
        cells_max(t, r, n) == 0 || exists|j: int| 0 <= j < n && #[trigger] t(r, j) == cells_max(t, r, n),
    decreases n,
{
    if n > 0 {
        lemma_cells_max(t, r, n - 1);
        if cells_max(t, r, n) != 0 {
            if t(r, n - 1) > cells_max(t, r, n - 1) {
            } else {
                let j = choose|j: int| 0 <= j < n - 1 && #[trigger] t(r, j) == cells_max(t, r, n - 1);
            }
        }
    }
}

/// The greatest value over the board is at least every value on it, and is one of them
/// or 0.
pub proof fn law_grid_max(t: spec_fn(int, int) -> int)
    ensures
        forall|i: int, j: int| 0 <= i < 8 && 0 <= j < 8 ==> #[trigger] t(i, j) <= grid_max(t),
        grid_max(t) >= 0,
        grid_max(t) == 0 || exists|i: int, j: int|
            0 <= i < 8 && 0 <= j < 8 && #[trigger] t(i, j) == grid_max(t),
{
    lemma_rows_max(t, 8);
}

/// The greatest value over the first ranks is at least every value there, and is one of
/// them or 0.
pub proof fn lemma_rows_max(t: spec_fn(int, int) -> int, n: int)
    requires
        0 <= n <= 8,
    ensures
        forall|i: int, j: int| 0 <= i < n && 0 <= j < 8 ==> #[trigger] t(i, j) <= rows_max(t, n),
        rows_max(t, n) >= 0,
        rows_max(t, n) == 0 || exists|i: int, j: int|
            0 <= i < n && 0 <= j < 8 && #[trigger] t(i, j) == rows_max(t, n),
    decreases n,
{
    if n > 0 {
        lemma_rows_max(t, n - 1);
        lemma_cells_max(t, n - 1, 8);
        if rows_max(t, n) != 0 {
            if cells_max(t, n - 1, 8) > rows_max(t, n - 1) {
                let j = choose|j: int| 0 <= j < 8 && #[trigger] t(n - 1, j) == cells_max(t, n - 1, 8);
            } else {
                let (i, j) = choose|i: int, j: int|
                    0 <= i < n - 1 && 0 <= j < 8 && #[trigger] t(i, j) == rows_max(t, n - 1);
            }
        }
    }
}

/// A sum over part of a rank lies between the bounds of its terms, taken once per square.
pub proof fn lemma_cells_sum_bounds(t: spec_fn(int, int) -> int, r: int, n: int, lo: int, hi: int)
    requires
        0 <= n <= 8,
        0 <= r < 8,
        forall|i: int, j: int| 0 <= i < 8 && 0 <= j < 8 ==> lo <= #[trigger] t(i, j) <= hi,
    ensures
        n * lo <= cells_sum(t, r, n) <= n * hi,
    decreases n,
{
    if n > 0 {
        lemma_cells_sum_bounds(t, r, n - 1, lo, hi);
        assert(n * lo == (n - 1) * lo + lo) by (nonlinear_arith);
        assert(n * hi == (n - 1) * hi + hi) by (nonlinear_arith);
    } else {
        assert(n * lo == 0 && n * hi == 0) by (nonlinear_arith)
            requires
                n == 0,
        ;
    }
}

/// A sum over the first ranks lies between the bounds of its terms, taken once per square.
pub proof fn lemma_rows_sum_bounds(t: spec_fn(int, int) -> int, n: int, lo: int, hi: int)
    requires
        0 <= n <= 8,
        forall|i: int, j: int| 0 <= i < 8 && 0 <= j < 8 ==> lo <= #[trigger] t(i, j) <= hi,
    ensures
        8 * n * lo <= rows_sum(t, n) <= 8 * n * hi,
    decreases n,
{
    if n > 0 {
        lemma_rows_sum_bounds(t, n - 1, lo, hi);
        lemma_cells_sum_bounds(t, n - 1, 8, lo, hi);
        assert(8 * n * lo == 8 * (n - 1) * lo + 8 * lo) by (nonlinear_arith);
        assert(8 * n * hi == 8 * (n - 1) * hi + 8 * hi) by (nonlinear_arith);
    } else {
        assert(8 * n * lo == 0 && 8 * n * hi == 0) by (nonlinear_arith)
            requires
                n == 0,
        ;
    }
}

/// Sums of terms that agree on every square of the board are equal.
pub proof fn lemma_grid_sum_ext(t: spec_fn(int, int) -> int, u: spec_fn(int, int) -> int)
    requires
        forall|i: int, j: int| 0 <= i < 8 && 0 <= j < 8 ==> #[trigger] t(i, j) == u(i, j),
    ensures
        grid_sum(t) == grid_sum(u),
{
    lemma_rows_sum_ext(t, u, 8);
}

/// Sums over the first ranks of terms that agree on every square are equal.
pub proof fn lemma_rows_sum_ext(t: spec_fn(int, int) -> int, u: spec_fn(int, int) -> int, n: int)
    requires
        0 <= n <= 8,
        forall|i: int, j: int| 0 <= i < 8 && 0 <= j < 8 ==> #[trigger] t(i, j) == u(i, j),
    ensures
        rows_sum(t, n) == rows_sum(u, n),
    decreases n,
{
    if n > 0 {
        lemma_rows_sum_ext(t, u, n - 1);
        lemma_cells_sum_ext(t, u, n - 1, 8);
    }
}

/// Sums over part of a rank of terms that agree on every square are equal.
pub proof fn lemma_cells_sum_ext(t: spec_fn(int, int) -> int, u: spec_fn(int, int) -> int, r: int, n: int)
    requires
        0 <= r < 8,
        0 <= n <= 8,
        forall|i: int, j: int| 0 <= i < 8 && 0 <= j < 8 ==> #[trigger] t(i, j) == u(i, j),
    ensures
        cells_sum(t, r, n) == cells_sum(u, r, n),
    decreases n,
{
    if n > 0 {
        lemma_cells_sum_ext(t, u, r, n - 1);
    }
}

/// The greatest values of terms that agree on every square of the board are equal.
pub proof fn lemma_grid_max_ext(t: spec_fn(int, int) -> int, u: spec_fn(int, int) -> int)
    requires
        forall|i: int, j: int| 0 <= i < 8 && 0 <= j < 8 ==> #[trigger] t(i, j) == u(i, j),
    ensures
        grid_max(t) == grid_max(u),
{
    lemma_rows_max_ext(t, u, 8);
}

/// The greatest values over the first ranks of terms that agree on every square are
/// equal.
pub proof fn lemma_rows_max_ext(t: spec_fn(int, int) -> int, u: spec_fn(int, int) -> int, n: int)
    requires
        0 <= n <= 8,
        forall|i: int, j: int| 0 <= i < 8 && 0 <= j < 8 ==> #[trigger] t(i, j) == u(i, j),
    ensures
        rows_max(t, n) == rows_max(u, n),
    decreases n,
{
    if n > 0 {
        lemma_rows_max_ext(t, u, n - 1);
        lemma_cells_max_ext(t, u, n - 1, 8);
    }
}

/// The greatest values over part of a rank of terms that agree on every square are
/// equal.
pub proof fn lemma_cells_max_ext(t: spec_fn(int, int) -> int, u: spec_fn(int, int) -> int, r: int, n: int)
    requires
        0 <= r < 8,
        0 <= n <= 8,
        forall|i: int, j: int| 0 <= i < 8 && 0 <= j < 8 ==> #[trigger] t(i, j) == u(i, j),
    ensures
        cells_max(t, r, n) == cells_max(u, r, n),
    decreases n,
{
    if n > 0 {
        lemma_cells_max_ext(t, u, r, n - 1);
    }
}

/// The quotient of `a` by a positive `b`, rounded towards zero.
pub open spec fn quot(a: int, b: int) -> int {
    if a >= 0 {
        a / b
    } else {
        -((-a) / b)
    }
}

/// The quotient of `a` by a positive `b`, rounded towards zero.
pub fn div_toward_zero(a: i32, b: i32) -> (q: i32)
    requires
        b > 0,
        a > -2147483648,
    ensures
        q == quot(a as int, b as int),
        -a <= q <= a || a <= q <= -a,
{
    if a >= 0 {
        let q = a / b;
        assert(0 <= q <= a) by (nonlinear_arith)
            requires
                q == a as int / b as int,
                a >= 0,
                b > 0,
        ;
        q
    } else {
        let n = -a;
        let q = n / b;
        assert(0 <= q <= n) by (nonlinear_arith)
            requires
                q == n as int / b as int,
                n >= 0,
                b > 0,
        ;
        -q
    }
}

} // verus!
