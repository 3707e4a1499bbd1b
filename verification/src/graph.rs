//! The graph that every decoder builds and every encoder reads: an
//! adjacency matrix, stored row by row, and a direction flag.
use vstd::arithmetic::div_mod::lemma_fundamental_div_mod_converse;
use vstd::prelude::*;

verus! {

/// A graph as a mathematical value.
pub struct GraphView {
    /// The number of vertices.
    pub order: nat,
    /// The adjacency matrix, row by row.
    pub cells: Seq<bool>,
    /// Whether an edge has a direction.
    pub directed: bool,
}

impl GraphView {
    /// The matrix is square: one cell for each pair of vertices.
    pub open spec fn wf(self) -> bool {
        self.cells.len() == self.order * self.order
    }

    /// Whether the matrix joins vertex `i` to vertex `j`.
    pub open spec fn cell(self, i: int, j: int) -> bool {
        self.cells[i * self.order + j]
    }

    /// Every cell equals the cell mirrored at the diagonal.
    pub open spec fn symmetric(self) -> bool {
        forall|i: int, j: int|
            0 <= i < self.order && 0 <= j < self.order ==> #[trigger] self.cell(i, j) == self.cell(
                j,
                i,
            )
    }

    /// No vertex is joined to itself.
    pub open spec fn loop_free(self) -> bool {
        forall|i: int| 0 <= i < self.order ==> !#[trigger] self.cell(i, i)
    }

    /// Symmetric and without loops: what an undirected graph is meant to be.
    pub open spec fn simple(self) -> bool {
        self.symmetric() && self.loop_free()
    }

    /// Square, and simple unless it is directed.
    pub open spec fn valid(self) -> bool {
        self.wf() && (!self.directed ==> self.simple())
    }
}

/// The square matrix of side `n` whose cell in row `i` and column `j` is `f(i, j)`.
pub open spec fn matrix(n: nat, f: spec_fn(int, int) -> bool) -> Seq<bool> {
    Seq::new(n * n, |k: int| f(k / n as int, k % n as int))
}

/// Row `i` and column `j` of a square of side `n` meet at `i * n + j`, and
/// nowhere else.
pub proof fn lemma_cell_index(n: int, i: int, j: int)
    requires
        0 <= i < n,
        0 <= j < n,
    ensures
        0 <= i * n + j < n * n,
        (i * n + j) / n == i,
        (i * n + j) % n == j,
{
    assert(0 <= i * n && i * n + n <= n * n) by (nonlinear_arith)
        requires
            0 <= i < n,
    ;
    lemma_fundamental_div_mod_converse(i * n + j, n, i, j);
}

/// A cell of `matrix(n, f)` is `f` of its row and column.
pub proof fn lemma_matrix_cell(n: nat, f: spec_fn(int, int) -> bool, i: int, j: int)
    requires
        0 <= i < n,
        0 <= j < n,
    ensures
        0 <= i * n + j < matrix(n, f).len(),
        matrix(n, f)[i * n + j] == f(i, j),
{
    lemma_cell_index(n as int, i, j);
}

/// Position `k` of a square of side `n` lies in row `k / n` and column `k % n`.
pub proof fn lemma_index_cell(n: int, k: int)
    requires
        0 <= n,
        0 <= k < n * n,
    ensures
        0 <= k / n < n,
        0 <= k % n < n,
        k == (k / n) * n + k % n,
{
    assert(n > 0) by (nonlinear_arith)
        requires
            0 <= n,
            0 <= k < n * n,
    ;
    vstd::arithmetic::div_mod::lemma_fundamental_div_mod(k, n);
    vstd::arithmetic::div_mod::lemma_mod_pos_bound(k, n);
    assert(0 <= k / n < n) by (nonlinear_arith)
        requires
            0 <= k < n * n,
            n > 0,
            k == n * (k / n) + k % n,
            0 <= k % n < n,
    ;
    assert((k / n) * n == n * (k / n)) by (nonlinear_arith);
}

/// A graph: an adjacency matrix and a direction flag.
///
/// The matrix of an undirected graph is symmetric and its diagonal is
/// empty. `new` and every decoder give such a graph, and every encoder
/// asks for one.
#[derive(Debug, PartialEq, Eq)]
pub struct Graph {
    /// The number of vertices.
    pub order: usize,
    /// The adjacency matrix, row by row: `order * order` cells.
    pub cells: Vec<bool>,
    /// Whether an edge has a direction.
    pub directed: bool,
}

impl View for Graph {
    type V = GraphView;

    open spec fn view(&self) -> GraphView {
        GraphView { order: self.order as nat, cells: self.cells@, directed: self.directed }
    }
}

impl Clone for Graph {
    fn clone(&self) -> (r: Self)
        ensures
            r@ == self@,
    {
        Graph { order: self.order, cells: self.cells.clone(), directed: self.directed }
    }
}

impl Graph {
    /// The matrix is square.
    pub open spec fn wf(&self) -> bool {
        self@.wf()
    }

    /// Square, and simple unless it is directed.
    pub open spec fn valid(&self) -> bool {
        self@.valid()
    }

    /// Makes a graph of `order` vertices from the cells of its matrix, row
    /// by row. There is a graph exactly when the cells fill the square
    /// and, for an undirected graph, are symmetric with an empty diagonal.
    pub fn new(order: usize, cells: Vec<bool>, directed: bool) -> (r: Option<Graph>)
        ensures
            r is Some <==> (GraphView { order: order as nat, cells: cells@, directed }).valid(),
            r matches Some(g) ==> g.valid() && g.order == order && g.cells@ == cells@ && g.directed
                == directed,
    {
        assert(order * order <= u128::MAX) by (nonlinear_arith)
            requires
                order <= u64::MAX,
        ;
        let square: u128 = order as u128 * order as u128;
        if cells.len() as u128 != square {
            return None;
        }
        let g = Graph { order, cells, directed };
        if directed || g.is_simple() {
            Some(g)
        } else {
            None
        }
    }

    /// Whether vertex `i` is joined to vertex `j`.
    pub fn edge(&self, i: usize, j: usize) -> (r: bool)
        requires
            self.wf(),
            i < self.order,
            j < self.order,
        ensures
            r == self@.cell(i as int, j as int),
    {
        proof {
            lemma_cell_index(self.order as int, i as int, j as int);
            assert(self.cells@.len() == self.cells.len());
            assert(0 <= i * self.order <= i * self.order + j) by (nonlinear_arith);
        }
        self.cells[i * self.order + j]
    }

    /// Whether the matrix is symmetric and its diagonal empty.
    pub fn is_simple(&self) -> (r: bool)
        requires
            self.wf(),
        ensures
            r == self@.simple(),
    {
        let n: usize = self.order;
        let mut i: usize = 0;
        while i < n
            invariant
                self.wf(),
                n == self.order,
                i <= n,
                forall|a: int, b: int|
                    0 <= a < i && 0 <= b < n ==> #[trigger] self@.cell(a, b) == self@.cell(b, a),
                forall|a: int| 0 <= a < i ==> !#[trigger] self@.cell(a, a),
            decreases n - i,
        {
            if self.edge(i, i) {
                return false;
            }
            let mut j: usize = 0;
            while j < n
                invariant
                    self.wf(),
                    n == self.order,
                    i < n,
                    j <= n,
                    forall|b: int|
                        0 <= b < j ==> #[trigger] self@.cell(i as int, b) == self@.cell(
                            b,
                            i as int,
                        ),
                decreases n - j,
            {
                if self.edge(i, j) != self.edge(j, i) {
                    return false;
                }
                j += 1;
            }
            i += 1;
        }
        proof {
            assert forall|a: int, b: int| 0 <= a < n && 0 <= b < n implies #[trigger] self@.cell(
                a,
                b,
            ) == self@.cell(b, a) by {}
        }
        true
    }

    /// The matrix as a list of rows.
    pub fn rows(&self) -> (r: Vec<Vec<bool>>)
        requires
            self.wf(),
        ensures
            r@.len() == self.order,
            forall|i: int| 0 <= i < self.order ==> (#[trigger] r@[i])@.len() == self.order,
            forall|i: int, j: int|
                0 <= i < self.order && 0 <= j < self.order ==> r@[i]@[j] == #[trigger] self@.cell(
                    i,
                    j,
                ),
    {
        let n: usize = self.order;
        let mut out: Vec<Vec<bool>> = Vec::new();
        let mut i: usize = 0;
        while i < n
            invariant
                self.wf(),
                n == self.order,
                i <= n,
                out@.len() == i,
                forall|a: int| 0 <= a < i ==> (#[trigger] out@[a])@.len() == n,
                forall|a: int, b: int|
                    0 <= a < i && 0 <= b < n ==> out@[a]@[b] == #[trigger] self@.cell(a, b),
            decreases n - i,
        {
            let mut row: Vec<bool> = Vec::new();
            let mut j: usize = 0;
            while j < n
                invariant
                    self.wf(),
                    n == self.order,
                    i < n,
                    j <= n,
                    row@.len() == j,
                    forall|b: int| 0 <= b < j ==> row@[b] == #[trigger] self@.cell(i as int, b),
                decreases n - j,
            {
                row.push(self.edge(i, j));
                j += 1;
            }
            out.push(row);
            i += 1;
        }
        out
    }
}

} // verus!
