//! The strict upper triangle of a square matrix, column by column: the
//! order in which graph6 lists the cells of an undirected graph.
use crate::graph::GraphView;
use vstd::prelude::*;

verus! {

/// How many cells lie above the diagonal in the first `n` columns:
/// `n * (n - 1) / 2`.
pub open spec fn triangle(n: nat) -> nat
    decreases n,
{
    if n == 0 {
        0
    } else {
        triangle((n - 1) as nat) + (n - 1) as nat
    }
}

/// Twice the triangle number of `n` is `n * (n - 1)`.
pub proof fn lemma_triangle_closed(n: nat)
    ensures
        2 * triangle(n) == n * (n - 1),
    decreases n,
{
    if n > 0 {
        let m: int = n - 1;
        let t: int = triangle(m as nat) as int;
        lemma_triangle_closed(m as nat);
        assert(2 * t == m * (m - 1));
        assert(2 * (t + m) == (m + 1) * m) by (nonlinear_arith)
            requires
                2 * t == m * (m - 1),
        ;
        assert(triangle(n) == t + m);
        assert(n * (n - 1) == (m + 1) * m);
    } else {
        assert(n * (n - 1) == 0) by (nonlinear_arith)
            requires
                n == 0,
        ;
    }
}

/// More columns hold at least as many cells.
pub proof fn lemma_triangle_monotone(a: nat, b: nat)
    requires
        a <= b,
    ensures
        triangle(a) <= triangle(b),
    decreases b,
{
    if a < b {
        lemma_triangle_monotone(a, (b - 1) as nat);
    }
}

/// From three columns on there are at least as many cells above the
/// diagonal as columns.
pub proof fn lemma_triangle_grows(n: nat)
    requires
        n >= 3,
    ensures
        n <= triangle(n),
    decreases n,
{
    reveal_with_fuel(triangle, 4);
    if n > 3 {
        lemma_triangle_grows((n - 1) as nat);
    }
}

/// The cell in row `i` of column `j`, above the diagonal, is the cell
/// number `triangle(j) + i` of the triangle, and lies inside it.
pub proof fn lemma_triangle_index(n: nat, i: int, j: int)
    requires
        0 <= i < j < n,
    ensures
        0 <= triangle(j as nat) + i < triangle(n),
{
    lemma_triangle_monotone((j + 1) as nat, n);
}

/// The cells above the diagonal in the first `c` columns of a square
/// matrix of side `n`, column by column, each column from the top.
pub open spec fn above_diagonal(cells: Seq<bool>, n: nat, c: nat) -> Seq<bool>
    decreases c,
{
    if c == 0 {
        Seq::empty()
    } else {
        above_diagonal(cells, n, (c - 1) as nat) + Seq::new(
            (c - 1) as nat,
            |i: int| cells[i * n + (c - 1)],
        )
    }
}

/// The triangle of `c` columns has `triangle(c)` cells, and the cell of
/// row `i` and column `j` stands at `triangle(j) + i`.
pub proof fn lemma_above_diagonal(cells: Seq<bool>, n: nat, c: nat)
    ensures
        above_diagonal(cells, n, c).len() == triangle(c),
        forall|i: int, j: int|
            0 <= i < j < c ==> above_diagonal(cells, n, c)[triangle(j as nat) + i] == cells[#[trigger] (
            i * n + j)],
    decreases c,
{
    if c > 0 {
        let before = above_diagonal(cells, n, (c - 1) as nat);
        lemma_above_diagonal(cells, n, (c - 1) as nat);
        assert forall|i: int, j: int| 0 <= i < j < c implies above_diagonal(cells, n, c)[triangle(
            j as nat,
        ) + i] == cells[#[trigger] (i * n + j)] by {
            if j < c - 1 {
                lemma_triangle_index((c - 1) as nat, i, j);
            }
        }
    }
}

/// The cell in row `i` and column `j` of the symmetric matrix without
/// loops whose upper triangle is `bits`.
pub open spec fn mirrored_cell(bits: Seq<bool>, i: int, j: int) -> bool {
    if i < j {
        bits[triangle(j as nat) + i]
    } else if j < i {
        bits[triangle(i as nat) + j]
    } else {
        false
    }
}

/// The cells below the diagonal in the first `r` rows of a square matrix
/// of side `n`, row by row, each row from the left.
pub open spec fn below_diagonal(cells: Seq<bool>, n: nat, r: nat) -> Seq<bool>
    decreases r,
{
    if r == 0 {
        Seq::empty()
    } else {
        below_diagonal(cells, n, (r - 1) as nat) + Seq::new(
            (r - 1) as nat,
            |j: int| cells[(r - 1) * n + j],
        )
    }
}

/// In a symmetric matrix the cells below the diagonal, row by row, are
/// the cells above it, column by column.
pub proof fn lemma_triangles_agree(g: GraphView, c: nat)
    requires
        g.symmetric(),
        c <= g.order,
    ensures
        below_diagonal(g.cells, g.order, c) == above_diagonal(g.cells, g.order, c),
    decreases c,
{
    if c > 0 {
        lemma_triangles_agree(g, (c - 1) as nat);
        let n = g.order;
        let row = Seq::new((c - 1) as nat, |j: int| g.cells[(c - 1) * n + j]);
        let column = Seq::new((c - 1) as nat, |i: int| g.cells[i * n + (c - 1)]);
        assert forall|j: int| 0 <= j < c - 1 implies row[j] == column[j] by {
            assert(g.cell(c - 1, j) == g.cell(j, c - 1));
        }
        assert(row =~= column);
    }
}

} // verus!
