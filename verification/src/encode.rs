//! From a graph to text: the adjacency matrix, DOT, Pajek NET, the flat
//! format, and graph6 or digraph6 again.
use crate::bits::{law_unpack_packed, lemma_packed_printable, pack, packed, padded};
use crate::decode::{
    digraph6_of, flat_cells, flat_of, graph6_cells, graph6_of, lemma_root_of_square,
    undirected_cells, AMPERSAND, ONE, ZERO,
};
use crate::error::IOError;
use crate::graph::{lemma_cell_index, lemma_index_cell, Graph, GraphView};
use crate::size::{encode_size, law_size_round_trip, size_bytes, LONG_MAX};
use crate::triangle::{
    above_diagonal, lemma_above_diagonal, lemma_triangle_index, lemma_triangles_agree,
};
use crate::upstream::{flat_digits, short_nauty, to_numbers};
use vstd::prelude::*;

verus! {

/// The line feed that ends or parts the lines of a text.
pub const NEWLINE: u8 = 10;

/// The character of a cell: `1` for an edge, `0` for none.
pub open spec fn cell_char(b: bool) -> u8 {
    if b {
        ONE
    } else {
        ZERO
    }
}

/// A natural number in decimal digits.
pub open spec fn decimal(n: nat) -> Seq<u8>
    decreases n,
{
    if n < 10 {
        seq![(48 + n) as u8]
    } else {
        decimal(n / 10).push((48 + n % 10) as u8)
    }
}

/// The flat text of a graph: one character for each cell, row by row.
pub open spec fn flat_text(g: GraphView) -> Seq<u8> {
    g.cells.map_values(|b: bool| cell_char(b))
}

/// Row `i` of the matrix as characters.
pub open spec fn row_text(g: GraphView, i: int) -> Seq<u8> {
    Seq::new(g.order, |j: int| cell_char(g.cell(i, j)))
}

/// The first `r` rows of the matrix, one to a line, a line feed between
/// two rows and none after the last.
pub open spec fn rows_text(g: GraphView, r: nat) -> Seq<u8>
    decreases r,
{
    if r == 0 {
        Seq::empty()
    } else if r == 1 {
        row_text(g, 0)
    } else {
        rows_text(g, (r - 1) as nat) + seq![NEWLINE] + row_text(g, r - 1)
    }
}

/// The adjacency matrix as text: as many lines as vertices, each of as
/// many characters `0` and `1`.
pub open spec fn adjmat_text(g: GraphView) -> Seq<u8> {
    rows_text(g, g.order)
}

/// The word `graph` and a space.
pub open spec fn graph_word() -> Seq<u8> {
    seq![103u8, 114, 97, 112, 104, 32]
}

/// The word `digraph` and a space.
pub open spec fn digraph_word() -> Seq<u8> {
    seq![100u8, 105, 103, 114, 97, 112, 104, 32]
}

/// The text `graph_`, which begins the name of a numbered graph.
pub open spec fn name_stem() -> Seq<u8> {
    seq![103u8, 114, 97, 112, 104, 95]
}

/// The link between the two ends of an edge in DOT: ` -> ` for a directed
/// graph, ` -- ` for an undirected one.
pub open spec fn dot_link(directed: bool) -> Seq<u8> {
    if directed {
        seq![32u8, 45, 62, 32]
    } else {
        seq![32u8, 45, 45, 32]
    }
}

/// One edge statement of DOT on a line of its own: a line feed, the two
/// vertices with their link, and a semicolon.
pub open spec fn dot_edge(i: int, j: int, directed: bool) -> Seq<u8> {
    seq![NEWLINE] + decimal(i as nat) + dot_link(directed) + decimal(j as nat) + seq![59u8]
}

/// Whether DOT lists the cell in row `i` and column `j`: an edge that is
/// no loop, in a directed graph; an edge above the diagonal, in an
/// undirected one.
pub open spec fn dot_listed(g: GraphView, i: int, j: int) -> bool {
    g.cell(i, j) && (if g.directed {
        i != j
    } else {
        i < j
    })
}

/// The edge statements for the first `k` cells of the matrix, row by row.
pub open spec fn dot_edges(g: GraphView, k: int) -> Seq<u8>
    decreases k,
{
    if k <= 0 {
        Seq::empty()
    } else {
        let i = (k - 1) / g.order as int;
        let j = (k - 1) % g.order as int;
        dot_edges(g, k - 1) + (if dot_listed(g, i, j) {
            dot_edge(i, j, g.directed)
        } else {
            Seq::empty()
        })
    }
}

/// The line that opens a DOT block: `graph {` or `digraph {`, with the
/// name `graph_` and the number before the brace where a number is given.
pub open spec fn dot_head(directed: bool, id: Option<usize>) -> Seq<u8> {
    (if directed {
        digraph_word()
    } else {
        graph_word()
    }) + (match id {
        Some(x) => name_stem() + decimal(x as nat) + seq![32u8, 123],
        None => seq![123u8],
    })
}

/// A graph as a DOT block: the opening line, an edge statement for each
/// listed cell, and the closing brace on a line of its own. Vertices are
/// numbered from 0.
pub open spec fn dot_text(g: GraphView, id: Option<usize>) -> Seq<u8> {
    dot_head(g.directed, id) + dot_edges(g, (g.order * g.order) as int) + seq![NEWLINE, 125u8]
}

/// The text `*Vertices` and a space.
pub open spec fn vertices_word() -> Seq<u8> {
    seq![42u8, 86, 101, 114, 116, 105, 99, 101, 115, 32]
}

/// The line `*Arcs`.
pub open spec fn arcs_line() -> Seq<u8> {
    seq![42u8, 65, 114, 99, 115, NEWLINE]
}

/// The line `*Edges`.
pub open spec fn edges_line() -> Seq<u8> {
    seq![42u8, 69, 100, 103, 101, 115, NEWLINE]
}

/// The line of vertex `v` in NET: its number, counted from 1, and its
/// index, counted from 0, between double quotes.
pub open spec fn net_vertex(v: int) -> Seq<u8> {
    decimal((v + 1) as nat) + seq![32u8, 34] + decimal(v as nat) + seq![34u8, NEWLINE]
}

/// The lines of the first `k` vertices.
pub open spec fn net_vertices(k: int) -> Seq<u8>
    decreases k,
{
    if k <= 0 {
        Seq::empty()
    } else {
        net_vertices(k - 1) + net_vertex(k - 1)
    }
}

/// The line of an edge in NET: its two ends, counted from 1.
pub open spec fn net_edge(i: int, j: int) -> Seq<u8> {
    decimal((i + 1) as nat) + seq![32u8] + decimal((j + 1) as nat) + seq![NEWLINE]
}

/// Whether NET lists the cell in row `i` and column `j`: every edge of a
/// directed graph; of an undirected one those above the diagonal.
pub open spec fn net_listed(g: GraphView, i: int, j: int) -> bool {
    g.cell(i, j) && (g.directed || i < j)
}

/// The edge lines for the first `k` cells of the matrix, row by row.
pub open spec fn net_edges(g: GraphView, k: int) -> Seq<u8>
    decreases k,
{
    if k <= 0 {
        Seq::empty()
    } else {
        let i = (k - 1) / g.order as int;
        let j = (k - 1) % g.order as int;
        net_edges(g, k - 1) + (if net_listed(g, i, j) {
            net_edge(i, j)
        } else {
            Seq::empty()
        })
    }
}

/// What comes before the edge lines in NET: the line `*Vertices` with the
/// order, a line for each vertex, and `*Arcs` for a directed graph or
/// `*Edges` for an undirected one.
pub open spec fn net_head(g: GraphView) -> Seq<u8> {
    vertices_word() + decimal(g.order) + seq![NEWLINE] + net_vertices(g.order as int) + (
    if g.directed {
        arcs_line()
    } else {
        edges_line()
    })
}

/// A graph in the Pajek NET format.
pub open spec fn net_text(g: GraphView) -> Seq<u8> {
    net_head(g) + net_edges(g, (g.order * g.order) as int)
}

/// A graph in digraph6 if it is directed, in graph6 if it is not: `&`
/// for a directed graph, the size prefix, and the packed bits of the
/// whole matrix, row by row, or of the cells above the diagonal, column
/// by column.
pub open spec fn nauty_text(g: GraphView) -> Seq<u8> {
    if g.directed {
        seq![AMPERSAND] + size_bytes(g.order as int) + packed(g.cells)
    } else {
        size_bytes(g.order as int) + packed(above_diagonal(g.cells, g.order, g.order))
    }
}

/// Appends a text to a buffer.
pub fn append(out: &mut Vec<u8>, text: &[u8])
    ensures
        final(out)@ == old(out)@ + text@,
{
    let mut k: usize = 0;
    while k < text.len()
        invariant
            k <= text@.len(),
            out@ == old(out)@ + text@.take(k as int),
        decreases text@.len() - k,
    {
        out.push(text[k]);
        k += 1;
        proof {
            assert(out@ =~= old(out)@ + text@.take(k as int));
        }
    }
    proof {
        assert(text@.take(k as int) =~= text@);
    }
}

/// Appends a number in decimal digits to a buffer.
pub fn append_decimal(out: &mut Vec<u8>, n: usize)
    ensures
        final(out)@ == old(out)@ + decimal(n as nat),
    decreases n,
{
    if n >= 10 {
        append_decimal(out, n / 10);
    }
    out.push(48 + (n % 10) as u8);
    proof {
        assert(out@ =~= old(out)@ + decimal(n as nat));
    }
}

/// A square of side `n` that fits in memory has a side below 2^32.
proof fn lemma_side_bound(n: int)
    requires
        0 <= n,
        n * n <= u64::MAX,
    ensures
        n <= 0xffff_ffff,
{
    assert(n <= 0xffff_ffff) by (nonlinear_arith)
        requires
            0 <= n,
            n * n <= 0xffff_ffff_ffff_ffff,
    ;
}

impl Graph {
    /// The graph as one line of `0` and `1`, a character for each cell,
    /// row by row. The characters are written by `graph6-rs`.
    pub fn to_flat(&self) -> (text: Vec<u8>)
        requires
            self.valid(),
        ensures
            text@ == flat_text(self@),
    {
        let numbers = to_numbers(&self.cells);
        flat_digits(numbers, self.order)
    }

    /// The graph as an adjacency matrix: a line of `0` and `1` for each
    /// row, a line feed between two lines and none after the last.
    pub fn to_adjmat(&self) -> (text: Vec<u8>)
        requires
            self.valid(),
        ensures
            text@ == adjmat_text(self@),
    {
        let n: usize = self.order;
        let mut out: Vec<u8> = Vec::new();
        let mut i: usize = 0;
        while i < n
            invariant
                self.wf(),
                n == self.order,
                i <= n,
                out@ == rows_text(self@, i as nat),
            decreases n - i,
        {
            if i > 0 {
                out.push(NEWLINE);
            }
            let ghost start = out@;
            let mut j: usize = 0;
            while j < n
                invariant
                    self.wf(),
                    n == self.order,
                    i < n,
                    j <= n,
                    out@ == start + row_text(self@, i as int).take(j as int),
                decreases n - j,
            {
                out.push(if self.edge(i, j) { ONE } else { ZERO });
                j += 1;
                proof {
                    assert(out@ =~= start + row_text(self@, i as int).take(j as int));
                }
            }
            proof {
                assert(row_text(self@, i as int).take(n as int) =~= row_text(self@, i as int));
                assert(out@ =~= rows_text(self@, (i + 1) as nat));
            }
            i += 1;
        }
        out
    }

    /// The graph as a DOT block, named `graph_` and the number where a
    /// number is given. A directed graph lists every edge but loops; an
    /// undirected one each edge once, from above the diagonal.
    pub fn to_dot(&self, id: Option<usize>) -> (text: Vec<u8>)
        requires
            self.valid(),
        ensures
            text@ == dot_text(self@, id),
    {
        let n: usize = self.order;
        let mut out: Vec<u8> = Vec::new();
        if self.directed {
            // "digraph "
            append(&mut out, &[100, 105, 103, 114, 97, 112, 104, 32]);
        } else {
            // "graph "
            append(&mut out, &[103, 114, 97, 112, 104, 32]);
        }
        match id {
            Some(x) => {
                // "graph_"
                append(&mut out, &[103, 114, 97, 112, 104, 95]);
                append_decimal(&mut out, x);
                // " {"
                append(&mut out, &[32, 123]);
            },
            None => {
                // "{"
                out.push(123);
            },
        }
        proof {
            assert(out@ =~= dot_head(self.directed, id));
        }
        let mut i: usize = 0;
        while i < n
            invariant
                self.wf(),
                n == self.order,
                i <= n,
                out@ == dot_head(self.directed, id) + dot_edges(self@, i * n),
            decreases n - i,
        {
            let mut j: usize = 0;
            while j < n
                invariant
                    self.wf(),
                    n == self.order,
                    i < n,
                    j <= n,
                    out@ == dot_head(self.directed, id) + dot_edges(self@, i * n + j),
                decreases n - j,
            {
                let ghost before = out@;
                proof {
                    lemma_cell_index(n as int, i as int, j as int);
                }
                if self.edge(i, j) && (if self.directed {
                    i != j
                } else {
                    i < j
                }) {
                    out.push(NEWLINE);
                    append_decimal(&mut out, i);
                    if self.directed {
                        // " -> "
                        append(&mut out, &[32, 45, 62, 32]);
                    } else {
                        // " -- "
                        append(&mut out, &[32, 45, 45, 32]);
                    }
                    append_decimal(&mut out, j);
                    // ";"
                    out.push(59);
                    proof {
                        assert(out@ =~= before + dot_edge(i as int, j as int, self.directed));
                    }
                }
                proof {
                    assert(out@ =~= dot_head(self.directed, id) + dot_edges(self@, i * n + j + 1));
                }
                j += 1;
            }
            proof {
                assert(i * n + n == (i + 1) * n) by (nonlinear_arith);
            }
            i += 1;
        }
        // "}" on a line of its own
        out.push(NEWLINE);
        out.push(125);
        proof {
            assert(out@ =~= dot_text(self@, id));
        }
        out
    }

    /// The graph in the Pajek NET format: the vertices, numbered from 1
    /// and labelled with their index from 0, and the edges. A directed
    /// graph lists every edge under `*Arcs`; an undirected one the edges
    /// above the diagonal, each once, under `*Edges`.
    pub fn to_net(&self) -> (text: Vec<u8>)
        requires
            self.valid(),
        ensures
            text@ == net_text(self@),
    {
        let n: usize = self.order;
        let mut out: Vec<u8> = Vec::new();
        // "*Vertices "
        append(&mut out, &[42, 86, 101, 114, 116, 105, 99, 101, 115, 32]);
        append_decimal(&mut out, n);
        out.push(NEWLINE);
        let ghost top = out@;
        let mut v: usize = 0;
        while v < n
            invariant
                v <= n,
                out@ == top + net_vertices(v as int),
            decreases n - v,
        {
            let ghost before = out@;
            append_decimal(&mut out, v + 1);
            // a space and the opening quote
            append(&mut out, &[32, 34]);
            append_decimal(&mut out, v);
            // the closing quote
            append(&mut out, &[34, NEWLINE]);
            proof {
                assert(out@ =~= before + net_vertex(v as int));
                assert(out@ =~= top + net_vertices(v + 1));
            }
            v += 1;
        }
        if self.directed {
            // "*Arcs"
            append(&mut out, &[42, 65, 114, 99, 115, NEWLINE]);
        } else {
            // "*Edges"
            append(&mut out, &[42, 69, 100, 103, 101, 115, NEWLINE]);
        }
        proof {
            assert(out@ =~= net_head(self@));
        }
        let mut i: usize = 0;
        while i < n
            invariant
                self.wf(),
                n == self.order,
                i <= n,
                out@ == net_head(self@) + net_edges(self@, i * n),
            decreases n - i,
        {
            let mut j: usize = 0;
            while j < n
                invariant
                    self.wf(),
                    n == self.order,
                    i < n,
                    j <= n,
                    out@ == net_head(self@) + net_edges(self@, i * n + j),
                decreases n - j,
            {
                let ghost before = out@;
                proof {
                    lemma_cell_index(n as int, i as int, j as int);
                }
                if self.edge(i, j) && (self.directed || i < j) {
                    append_decimal(&mut out, i + 1);
                    out.push(32);
                    append_decimal(&mut out, j + 1);
                    out.push(NEWLINE);
                    proof {
                        assert(out@ =~= before + net_edge(i as int, j as int));
                    }
                }
                proof {
                    assert(out@ =~= net_head(self@) + net_edges(self@, i * n + j + 1));
                }
                j += 1;
            }
            proof {
                assert(i * n + n == (i + 1) * n) by (nonlinear_arith);
            }
            i += 1;
        }
        out
    }

    /// The cells above the diagonal, column by column.
    pub fn upper_triangle(&self) -> (bits: Vec<bool>)
        requires
            self.wf(),
        ensures
            bits@ == above_diagonal(self.cells@, self.order as nat, self.order as nat),
    {
        let n: usize = self.order;
        let mut bits: Vec<bool> = Vec::new();
        let mut j: usize = 0;
        while j < n
            invariant
                self.wf(),
                n == self.order,
                j <= n,
                bits@ == above_diagonal(self.cells@, n as nat, j as nat),
            decreases n - j,
        {
            let ghost start = bits@;
            let ghost column = Seq::new(j as nat, |i: int| self.cells@[i * n + j]);
            let mut i: usize = 0;
            while i < j
                invariant
                    self.wf(),
                    n == self.order,
                    j < n,
                    i <= j,
                    column == Seq::new(j as nat, |i: int| self.cells@[i * n + j]),
                    bits@ == start + column.take(i as int),
                decreases j - i,
            {
                bits.push(self.edge(i, j));
                i += 1;
                proof {
                    assert(bits@ =~= start + column.take(i as int));
                }
            }
            proof {
                assert(column.take(j as int) =~= column);
            }
            j += 1;
        }
        bits
    }

    /// The graph in digraph6 if it is directed, in graph6 if it is not.
    ///
    /// Up to 62 vertices the line is written by `graph6-rs`; the longer
    /// size prefixes, and the graph without a vertex, are written here.
    pub fn write_graph(&self) -> (text: Vec<u8>)
        requires
            self.valid(),
        ensures
            text@ == nauty_text(self@),
    {
        let n: usize = self.order;
        proof {
            assert(self.cells@.len() == self.cells.len());
            lemma_side_bound(n as int);
        }
        if n <= 62 && (self.directed || n >= 1) {
            if self.directed {
                let numbers = to_numbers(&self.cells);
                let text = short_nauty(numbers, n, true);
                proof {
                    assert(text@ =~= nauty_text(self@));
                }
                text
            } else {
                let numbers = to_numbers(&self.cells);
                proof {
                    lemma_triangles_agree(self@, n as nat);
                }
                let text = short_nauty(numbers, n, false);
                proof {
                    assert(text@ =~= nauty_text(self@));
                }
                text
            }
        } else {
            let mut out: Vec<u8> = Vec::new();
            if self.directed {
                out.push(AMPERSAND);
            }
            let prefix = encode_size(n as u64);
            append(&mut out, prefix.as_slice());
            let bits = if self.directed {
                self.cells.clone()
            } else {
                self.upper_triangle()
            };
            let packed_bits = pack(&bits);
            append(&mut out, packed_bits.as_slice());
            proof {
                assert(out@ =~= nauty_text(self@));
            }
            out
        }
    }
}

/// Decoding the flat text of a graph gives the graph back, cell for
/// cell, directed or not as asked.
pub proof fn law_flat_round_trip(g: GraphView)
    requires
        g.valid(),
    ensures
        flat_of(flat_text(g), g.directed) == Ok::<GraphView, IOError>(g),
{
    let text = flat_text(g);
    let n = g.order;
    lemma_root_of_square(n);
    assert(text.len() == n * n);
    if g.directed {
        assert(flat_cells(text) =~= g.cells);
    } else {
        let back = undirected_cells(flat_cells(text), n);
        assert forall|k: int| 0 <= k < back.len() implies back[k] == g.cells[k] by {
            lemma_index_cell(n as int, k);
            let i = k / n as int;
            let j = k % n as int;
            lemma_cell_index(n as int, j, i);
            assert(g.cell(i, j) == g.cell(j, i));
            if i == j {
                assert(!g.cell(i, i));
            }
        }
        assert(back =~= g.cells);
    }
}

/// Decoding what an undirected graph is written as in graph6 gives the
/// graph back, if it is symmetric and has no loops.
pub proof fn law_graph6_round_trip(g: GraphView)
    requires
        g.valid(),
        !g.directed,
        g.order <= LONG_MAX,
    ensures
        graph6_of(nauty_text(g)) == Ok::<GraphView, IOError>(g),
{
    let n = g.order;
    let bits = above_diagonal(g.cells, n, n);
    let body = packed(bits);
    let line = nauty_text(g);
    law_size_round_trip(n as int, body);
    let used = size_bytes(n as int).len();
    assert(line.skip(used as int) =~= body);
    lemma_packed_printable(bits);
    lemma_above_diagonal(g.cells, n, n);
    law_unpack_packed(bits);
    let back = graph6_cells(n, padded(bits));
    assert(back.len() == g.cells.len());
    assert forall|k: int| 0 <= k < back.len() implies back[k] == g.cells[k] by {
        lemma_index_cell(n as int, k);
        let i = k / n as int;
        let j = k % n as int;
        if i < j {
            lemma_triangle_index(n, i, j);
        } else if j < i {
            lemma_triangle_index(n, j, i);
            lemma_cell_index(n as int, j, i);
            assert(g.cell(i, j) == g.cell(j, i));
        } else {
            assert(!g.cell(i, i));
        }
    }
    assert(back =~= g.cells);
}

/// Decoding what a directed graph is written as in digraph6 gives the
/// graph back.
pub proof fn law_digraph6_round_trip(g: GraphView)
    requires
        g.wf(),
        g.directed,
        g.order <= LONG_MAX,
    ensures
        digraph6_of(nauty_text(g)) == Ok::<GraphView, IOError>(g),
{
    let n = g.order;
    let body = packed(g.cells);
    let line = nauty_text(g);
    let rest = size_bytes(n as int) + body;
    assert(line.skip(1) =~= rest);
    law_size_round_trip(n as int, body);
    let used = size_bytes(n as int).len();
    assert(line.skip(1 + used as int) =~= body);
    lemma_packed_printable(g.cells);
    law_unpack_packed(g.cells);
    assert(padded(g.cells).take((n * n) as int) =~= g.cells);
}

} // verus!
