use vstd::prelude::*;

verus! {

/// The number of cells in the upper triangle, diagonal included, of an
/// `n` by `n` matrix.
pub open spec fn tri(n: int) -> int {
    n * (n + 1) / 2
}

/// The offset of cell `(x, y)` in a row-major packing of the upper triangle,
/// diagonal included, of an `n` by `n` symmetric matrix: row `i` holds the
/// `n - i` columns from `i` on. The two orders of a pair share one cell.
pub open spec fn pack(n: int, x: int, y: int) -> int {
    if x <= y {
        (2 * n - x - 1) * x / 2 + y
    } else {
        (2 * n - y - 1) * y / 2 + x
    }
}

/// Each row starts where the previous one, of `n - x` cells, ends.
pub proof fn lemma_pack_row_step(n: int, x: int)
    requires
        0 <= x,
    ensures
        pack(n, x + 1, x + 1) == pack(n, x, x) + (n - x),
{
    assert((2 * n - (x + 1) - 1) * (x + 1) == (2 * n - x - 1) * x + 2 * (n - x - 1))
        by (nonlinear_arith);
}

/// The first row starts at zero, and the row past the last one starts at the
/// number of cells.
pub proof fn lemma_pack_ends(n: int)
    requires
        0 <= n,
    ensures
        pack(n, 0, 0) == 0,
        pack(n, n, n) == tri(n),
{
    assert((2 * n - n - 1) * n + 2 * n == n * (n + 1)) by (nonlinear_arith);
}

/// Rows start at increasing offsets, each at least a full row after an
/// earlier one.
pub proof fn lemma_pack_rows_ordered(n: int, a: int, b: int)
    requires
        0 <= a < b <= n,
    ensures
        pack(n, a, a) + (n - a) <= pack(n, b, b),
    decreases b - a,
{
    lemma_pack_row_step(n, a);
    if a + 1 < b {
        lemma_pack_rows_ordered(n, a + 1, b);
    }
}

/// A cell of row `x` lies inside that row, and every cell inside the matrix.
pub proof fn lemma_pack_in_row(n: int, x: int, y: int)
    requires
        0 <= x <= y < n,
    ensures
        pack(n, x, x) <= pack(n, x, y) < pack(n, x + 1, x + 1),
        pack(n, x + 1, x + 1) <= tri(n),
        0 <= pack(n, x, y) < tri(n),
{
    lemma_pack_row_step(n, x);
    lemma_pack_ends(n);
    if x + 1 < n {
        lemma_pack_rows_ordered(n, x + 1, n);
    }
    if 0 < x {
        lemma_pack_rows_ordered(n, 0, x);
    }
}

/// A cell of an earlier row lies before the start of a later row.
pub proof fn lemma_pack_before_row(n: int, i: int, j: int, x: int)
    requires
        0 <= i < x <= n,
        i <= j < n,
    ensures
        pack(n, i, j) < pack(n, x, x),
{
    lemma_pack_in_row(n, i, j);
    if i + 1 < x {
        lemma_pack_rows_ordered(n, i + 1, x);
    }
}

/// Two cells inside the matrix with one offset are the same unordered pair.
pub proof fn lemma_pack_same_cell(n: int, k: int, l: int, i: int, j: int)
    requires
        0 <= k < n,
        0 <= l < n,
        0 <= i < n,
        0 <= j < n,
        pack(n, k, l) == pack(n, i, j),
    ensures
        (k == i && l == j) || (k == j && l == i),
{
    let (k1, l1) = if k <= l { (k, l) } else { (l, k) };
    let (i1, j1) = if i <= j { (i, j) } else { (j, i) };
    assert(pack(n, k, l) == pack(n, k1, l1));
    assert(pack(n, i, j) == pack(n, i1, j1));
    lemma_pack_injective(n, k1, l1, i1, j1);
}

/// Distinct ordered cells inside the matrix have distinct offsets.
pub proof fn lemma_pack_injective(n: int, x1: int, y1: int, x2: int, y2: int)
    requires
        0 <= x1 <= y1 < n,
        0 <= x2 <= y2 < n,
        pack(n, x1, y1) == pack(n, x2, y2),
    ensures
        x1 == x2,
        y1 == y2,
{
    lemma_pack_in_row(n, x1, y1);
    lemma_pack_in_row(n, x2, y2);
    if x1 < x2 {
        if x1 + 1 < x2 {
            lemma_pack_rows_ordered(n, x1 + 1, x2);
        }
    } else if x2 < x1 {
        if x2 + 1 < x1 {
            lemma_pack_rows_ordered(n, x2 + 1, x1);
        }
    }
}

/// An offset below every cell count that fits in `usize` also fits, and so
/// does twice the side.
pub proof fn lemma_side_fits(n: int)
    requires
        0 <= n,
        tri(n) <= usize::MAX,
    ensures
        2 * n <= usize::MAX,
{
    if n >= 3 {
        assert(n * (n + 1) >= 4 * n) by (nonlinear_arith)
            requires
                n >= 3,
        ;
    }
}

/// The offset of cell `(x, y)` of an `n` by `n` symmetric matrix whose upper
/// triangle is packed in `tri(n)` cells.
pub fn packed_offset(n: usize, x: usize, y: usize) -> (r: usize)
    requires
        x < n,
        y < n,
        tri(n as int) <= usize::MAX,
    ensures
        r == pack(n as int, x as int, y as int),
        r < tri(n as int),
{
    let (a, b) = if x <= y {
        (x, y)
    } else {
        (y, x)
    };
    proof {
        lemma_side_fits(n as int);
        lemma_pack_in_row(n as int, a as int, b as int);
    }
    let c: usize = 2 * n - a - 1;
    let start: usize = if a % 2 == 0 {
        proof {
            let h = (a / 2) as int;
            assert(h * c == (c * a) / 2) by (nonlinear_arith)
                requires
                    a == 2 * h,
            ;
        }
        (a / 2) * c
    } else {
        proof {
            assert(c % 2 == 0);
            let h = (c / 2) as int;
            assert(a * h == (c * a) / 2) by (nonlinear_arith)
                requires
                    c == 2 * h,
            ;
        }
        a * (c / 2)
    };
    start + b
}

} // verus!
