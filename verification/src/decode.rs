//! From a line of text to a graph: graph6, digraph6, the flat format, and
//! the choice among them by the first character of the line.
use crate::bits::{all_printable, is_printable, unpack, unpacked};
use crate::error::IOError;
use crate::formats::Graph6Format;
use crate::graph::{lemma_cell_index, lemma_matrix_cell, matrix, Graph, GraphView};
use crate::size::{decode_size, size_of, SizePrefix};
use crate::triangle::{
    lemma_triangle_closed, lemma_triangle_grows, lemma_triangle_monotone, mirrored_cell, triangle,
};
use crate::upstream::{flags, short_digraph6, short_graph6, to_flags};
use vstd::prelude::*;
use vstd::slice::slice_subrange;

verus! {

/// The character `&`, with which a digraph6 line begins.
pub const AMPERSAND: u8 = 38;

/// The character `:`, with which a sparse6 line begins.
pub const COLON: u8 = 58;

/// The character `;`, with which an incremental sparse6 line begins.
pub const SEMICOLON: u8 = 59;

/// The character `0`.
pub const ZERO: u8 = 48;

/// The character `1`.
pub const ONE: u8 = 49;

/// Whether a result of this library is the result that the model gives.
pub open spec fn agrees(r: Result<Graph, IOError>, model: Result<GraphView, IOError>) -> bool {
    match r {
        Ok(g) => model == Ok::<GraphView, IOError>(g@),
        Err(e) => model == Err::<GraphView, IOError>(e),
    }
}

/// The symmetric matrix of side `n` without loops whose upper triangle,
/// column by column, is `bits`.
pub open spec fn graph6_cells(n: nat, bits: Seq<bool>) -> Seq<bool> {
    matrix(n, |i: int, j: int| mirrored_cell(bits, i, j))
}

/// The graph that a graph6 line stands for.
///
/// The size prefix gives the order. The bytes after it must be printable,
/// else `InvalidBitByte`, and must hold a bit for each cell above the
/// diagonal, else `InsufficientBits`; bits beyond those are ignored.
pub open spec fn graph6_of(bytes: Seq<u8>) -> Result<GraphView, IOError> {
    match size_of(bytes) {
        Err(e) => Err(e),
        Ok(prefix) => {
            let body = bytes.skip(prefix.consumed as int);
            if !all_printable(body) {
                Err(IOError::InvalidBitByte)
            } else if 6 * body.len() < triangle(prefix.order as nat) {
                Err(IOError::InsufficientBits)
            } else {
                Ok(
                    GraphView {
                        order: prefix.order as nat,
                        cells: graph6_cells(prefix.order as nat, unpacked(body)),
                        directed: false,
                    },
                )
            }
        },
    }
}

/// The graph that a digraph6 line stands for.
///
/// The line must begin with `&`, else `FormatMismatch`. The size prefix
/// follows. The bytes after it must be printable, else `InvalidBitByte`,
/// and must hold a bit for each cell of the matrix, row by row, else
/// `InsufficientBits`; bits beyond those are ignored.
pub open spec fn digraph6_of(bytes: Seq<u8>) -> Result<GraphView, IOError> {
    if bytes.len() == 0 || bytes[0] != AMPERSAND {
        Err(IOError::FormatMismatch)
    } else {
        match size_of(bytes.skip(1)) {
            Err(e) => Err(e),
            Ok(prefix) => {
                let body = bytes.skip(1 + prefix.consumed);
                if !all_printable(body) {
                    Err(IOError::InvalidBitByte)
                } else if 6 * body.len() < prefix.order * prefix.order {
                    Err(IOError::InsufficientBits)
                } else {
                    Ok(
                        GraphView {
                            order: prefix.order as nat,
                            cells: unpacked(body).take(prefix.order * prefix.order),
                            directed: true,
                        },
                    )
                }
            },
        }
    }
}

/// Every byte is the character `0` or the character `1`.
pub open spec fn all_flat(bytes: Seq<u8>) -> bool {
    forall|k: int| 0 <= k < bytes.len() ==> #[trigger] bytes[k] == ZERO || bytes[k] == ONE
}

/// `len` is the square of a natural number.
pub open spec fn is_square(len: nat) -> bool {
    exists|n: nat| #[trigger] (n * n) == len
}

/// The natural number whose square is `len`, where there is one.
pub open spec fn root(len: nat) -> nat {
    choose|n: nat| #[trigger] (n * n) == len
}

/// The cells that the characters of a flat line stand for: `1` is an edge.
pub open spec fn flat_cells(bytes: Seq<u8>) -> Seq<bool> {
    bytes.map_values(|b: u8| b == ONE)
}

/// The undirected graph that a square matrix of side `n` stands for: two
/// vertices are joined where the matrix joins them in either direction,
/// and no vertex is joined to itself.
pub open spec fn undirected_cells(cells: Seq<bool>, n: nat) -> Seq<bool> {
    matrix(n, |i: int, j: int| i != j && (cells[i * n + j] || cells[j * n + i]))
}

/// The graph that a flat line stands for.
///
/// A character other than `0` and `1` is `InvalidCharacter`; a length
/// that is no square is `NotASquare`. The caller says whether the graph
/// is directed. For a directed graph the characters are the cells of the
/// matrix, row by row, as they stand. For an undirected graph a `1` joins
/// its two vertices in both directions, and a `1` on the diagonal joins
/// nothing.
pub open spec fn flat_of(bytes: Seq<u8>, directed: bool) -> Result<GraphView, IOError> {
    if !all_flat(bytes) {
        Err(IOError::InvalidCharacter)
    } else if !is_square(bytes.len()) {
        Err(IOError::NotASquare)
    } else {
        let n = root(bytes.len());
        Ok(
            GraphView {
                order: n,
                cells: if directed {
                    flat_cells(bytes)
                } else {
                    undirected_cells(flat_cells(bytes), n)
                },
                directed,
            },
        )
    }
}

/// The format that the first character of a line announces: `&` digraph6,
/// `:` sparse6, `;` incremental sparse6, `0` and `1` flat, anything else
/// graph6.
pub open spec fn detected(bytes: Seq<u8>) -> Graph6Format {
    if bytes.len() == 0 {
        Graph6Format::Graph
    } else if bytes[0] == AMPERSAND {
        Graph6Format::Digraph
    } else if bytes[0] == COLON {
        Graph6Format::Sparse6
    } else if bytes[0] == SEMICOLON {
        Graph6Format::IncSparse6
    } else if bytes[0] == ZERO || bytes[0] == ONE {
        Graph6Format::Flat
    } else {
        Graph6Format::Graph
    }
}

/// The format in which a line is read: the one asked for, and under
/// `Auto` the one that the line announces.
pub open spec fn resolved(bytes: Seq<u8>, format: Graph6Format) -> Graph6Format {
    if format == Graph6Format::Auto {
        detected(bytes)
    } else {
        format
    }
}

/// The graph that a line stands for in the given format. The sparse6
/// family is `Unsupported`.
pub open spec fn graph_of(bytes: Seq<u8>, format: Graph6Format) -> Result<GraphView, IOError> {
    match resolved(bytes, format) {
        Graph6Format::Graph => graph6_of(bytes),
        Graph6Format::Digraph => digraph6_of(bytes),
        Graph6Format::Flat => flat_of(bytes, false),
        Graph6Format::Flatd => flat_of(bytes, true),
        _ => Err(IOError::Unsupported),
    }
}

/// Two natural numbers with the same square are the same number.
pub proof fn lemma_root_unique(a: nat, b: nat)
    requires
        a * a == b * b,
    ensures
        a == b,
{
    assert(a == b) by (nonlinear_arith)
        requires
            a * a == b * b,
            a >= 0,
            b >= 0,
    ;
}

/// The root of a square is the number that was squared.
pub proof fn lemma_root_of_square(n: nat)
    ensures
        is_square(n * n),
        root(n * n) == n,
{
    assert(n * n == n * n);
    lemma_root_unique(root(n * n), n);
}

/// The matrix that graph6 describes is symmetric and has no loops.
pub proof fn lemma_graph6_cells_simple(n: nat, bits: Seq<bool>)
    ensures
        (GraphView { order: n, cells: graph6_cells(n, bits), directed: false }).valid(),
{
    let g = GraphView { order: n, cells: graph6_cells(n, bits), directed: false };
    let f = |i: int, j: int| mirrored_cell(bits, i, j);
    assert forall|i: int, j: int| 0 <= i < n && 0 <= j < n implies #[trigger] g.cell(i, j)
        == g.cell(j, i) by {
        lemma_matrix_cell(n, f, i, j);
        lemma_matrix_cell(n, f, j, i);
    }
    assert forall|i: int| 0 <= i < n implies !#[trigger] g.cell(i, i) by {
        lemma_matrix_cell(n, f, i, i);
    }
}

/// Every graph that a graph6 line stands for is square, symmetric and
/// without loops.
pub proof fn law_graph6_simple(bytes: Seq<u8>)
    ensures
        graph6_of(bytes) matches Ok(g) ==> !g.directed && g.wf() && g.simple(),
{
    if let Ok(prefix) = size_of(bytes) {
        lemma_graph6_cells_simple(
            prefix.order as nat,
            unpacked(bytes.skip(prefix.consumed as int)),
        );
    }
}

/// The undirected graph that a matrix stands for is symmetric and has no
/// loops.
pub proof fn lemma_undirected_cells_simple(cells: Seq<bool>, n: nat)
    ensures
        (GraphView { order: n, cells: undirected_cells(cells, n), directed: false }).valid(),
{
    let g = GraphView { order: n, cells: undirected_cells(cells, n), directed: false };
    let f = |i: int, j: int| i != j && (cells[i * n + j] || cells[j * n + i]);
    assert forall|i: int, j: int| 0 <= i < n && 0 <= j < n implies #[trigger] g.cell(i, j)
        == g.cell(j, i) by {
        lemma_matrix_cell(n, f, i, j);
        lemma_matrix_cell(n, f, j, i);
    }
    assert forall|i: int| 0 <= i < n implies !#[trigger] g.cell(i, i) by {
        lemma_matrix_cell(n, f, i, i);
    }
}

/// Every graph that a line stands for is square, and every undirected one
/// is symmetric and without loops, in whatever format the line was read.
pub proof fn law_undirected_simple(bytes: Seq<u8>, format: Graph6Format)
    ensures
        graph_of(bytes, format) matches Ok(g) ==> g.valid(),
{
    law_graph6_simple(bytes);
    lemma_undirected_cells_simple(flat_cells(bytes), root(bytes.len()));
    if graph_of(bytes, format) is Ok {
        match resolved(bytes, format) {
            Graph6Format::Digraph => {
                let prefix = size_of(bytes.skip(1))->Ok_0;
                assert(digraph6_of(bytes)->Ok_0.cells.len() == prefix.order * prefix.order);
            },
            _ => {},
        }
    }
}

/// Under `Auto` a line that begins with `&` is read as digraph6, whatever
/// follows.
pub proof fn law_auto_digraph6(bytes: Seq<u8>)
    requires
        bytes.len() > 0,
        bytes[0] == AMPERSAND,
    ensures
        graph_of(bytes, Graph6Format::Auto) == digraph6_of(bytes),
{
}

/// Under `Auto` a line of nothing but `0` and `1` is read as flat and
/// undirected.
pub proof fn law_auto_flat(bytes: Seq<u8>)
    requires
        bytes.len() > 0,
        all_flat(bytes),
    ensures
        graph_of(bytes, Graph6Format::Auto) == flat_of(bytes, false),
{
    assert(bytes[0] == ZERO || bytes[0] == ONE);
}

/// Fills the symmetric matrix of side `n` from the bits of its upper
/// triangle.
fn fill_mirrored(n: usize, bits: &Vec<bool>) -> (cells: Vec<bool>)
    requires
        triangle(n as nat) <= bits@.len(),
    ensures
        cells@ == graph6_cells(n as nat, bits@),
{
    let mut cells: Vec<bool> = Vec::new();
    let mut i: usize = 0;
    let mut ti: usize = 0;
    proof {
        assert(bits@.len() == bits.len());
    }
    while i < n
        invariant
            i <= n,
            ti == triangle(i as nat),
            triangle(n as nat) <= bits@.len() <= usize::MAX,
            cells@.len() == i * n,
            forall|k: int|
                0 <= k < cells@.len() ==> #[trigger] cells@[k] == mirrored_cell(
                    bits@,
                    k / n as int,
                    k % n as int,
                ),
        decreases n - i,
    {
        let mut j: usize = 0;
        let mut tj: usize = 0;
        while j < n
            invariant
                i < n,
                j <= n,
                ti == triangle(i as nat),
                tj == triangle(j as nat),
                triangle(n as nat) <= bits@.len() <= usize::MAX,
                cells@.len() == i * n + j,
                forall|k: int|
                    0 <= k < cells@.len() ==> #[trigger] cells@[k] == mirrored_cell(
                        bits@,
                        k / n as int,
                        k % n as int,
                    ),
            decreases n - j,
        {
            proof {
                lemma_cell_index(n as int, i as int, j as int);
                lemma_triangle_monotone((j + 1) as nat, n as nat);
                lemma_triangle_monotone((i + 1) as nat, n as nat);
            }
            let bit: bool = if i < j {
                bits[tj + i]
            } else if j < i {
                bits[ti + j]
            } else {
                false
            };
            cells.push(bit);
            tj = tj + j;
            j += 1;
        }
        proof {
            lemma_triangle_monotone((i + 1) as nat, n as nat);
            assert(i * n + n == (i + 1) * n) by (nonlinear_arith);
        }
        ti = ti + i;
        i += 1;
    }
    proof {
        assert(cells@ =~= graph6_cells(n as nat, bits@));
    }
    cells
}

/// Decodes a graph6 line into an undirected graph.
///
/// The short form, in which one byte holds the order, is read by
/// `graph6-rs`; the two longer forms, and an order of zero, are read here.
pub fn decode_graph6(bytes: &[u8]) -> (r: Result<Graph, IOError>)
    ensures
        agrees(r, graph6_of(bytes@)),
        r matches Ok(g) ==> !g.directed && g.valid(),
{
    proof {
        law_graph6_simple(bytes@);
    }
    let prefix: SizePrefix = match decode_size(bytes) {
        Ok(p) => p,
        Err(e) => {
            return Err(e);
        },
    };
    let body = slice_subrange(bytes, prefix.consumed, bytes.len());
    if prefix.order == 0 {
        proof {
            assert(graph6_cells(0, unpacked(body@)) =~= Seq::<bool>::empty());
        }
        return if is_printable(body) {
            Ok(Graph { order: 0, cells: Vec::new(), directed: false })
        } else {
            Err(IOError::InvalidBitByte)
        };
    }
    if prefix.consumed == 1 {
        if !is_printable(body) {
            return Err(IOError::InvalidBitByte);
        }
        let n: usize = prefix.order as usize;
        let numbers = match short_graph6(bytes) {
            Some(numbers) => numbers,
            None => {
                return Err(IOError::InsufficientBits);
            },
        };
        let cells = to_flags(&numbers, numbers.len());
        proof {
            assert(flags(numbers@).take(numbers@.len() as int) =~= flags(numbers@));
        }
        Ok(Graph { order: n, cells, directed: false })
    } else {
        let bits: Vec<bool> = match unpack(body) {
            Ok(b) => b,
            Err(e) => {
                return Err(e);
            },
        };
        let order: u64 = prefix.order;
        proof {
            lemma_triangle_closed(order as nat);
            assert(0 <= order * (order - 1) <= 0x1_0000_0000_0000_0000_0000) by (nonlinear_arith)
                requires
                    1 <= order <= 0xf_ffff_ffff,
            ;
            assert(bits@.len() == bits.len());
            if order >= 3 {
                lemma_triangle_grows(order as nat);
            }
        }
        let need: u128 = order as u128 * (order - 1) as u128 / 2;
        if (bits.len() as u128) < need {
            return Err(IOError::InsufficientBits);
        }
        let n: usize = order as usize;
        let cells = fill_mirrored(n, &bits);
        Ok(Graph { order: n, cells, directed: false })
    }
}

/// Decodes a digraph6 line into a directed graph.
///
/// The short form, in which one byte holds the order, is read by
/// `graph6-rs`; the two longer forms are read here.
pub fn decode_digraph6(bytes: &[u8]) -> (r: Result<Graph, IOError>)
    ensures
        agrees(r, digraph6_of(bytes@)),
        r matches Ok(g) ==> g.directed && g.valid(),
{
    if bytes.len() == 0 || bytes[0] != AMPERSAND {
        return Err(IOError::FormatMismatch);
    }
    let rest = slice_subrange(bytes, 1, bytes.len());
    let prefix: SizePrefix = match decode_size(rest) {
        Ok(p) => p,
        Err(e) => {
            return Err(e);
        },
    };
    let body = slice_subrange(rest, prefix.consumed, rest.len());
    proof {
        assert(body@ =~= bytes@.skip(1 + prefix.consumed));
    }
    let order: u64 = prefix.order;
    proof {
        assert(order * order <= 0x1_0000_0000_0000_0000_0000) by (nonlinear_arith)
            requires
                order <= 0xf_ffff_ffff,
        ;
    }
    let need: u128 = order as u128 * order as u128;
    if prefix.consumed == 1 {
        if !is_printable(body) {
            return Err(IOError::InvalidBitByte);
        }
        if 6 * (body.len() as u128) < need {
            return Err(IOError::InsufficientBits);
        }
        proof {
            assert(bytes@.skip(2) =~= body@);
            assert(order * order <= 62 * 62) by (nonlinear_arith)
                requires
                    order <= 62,
            ;
        }
        match short_digraph6(bytes) {
            Some(numbers) => {
                let cells = to_flags(&numbers, need as usize);
                Ok(Graph { order: order as usize, cells, directed: true })
            },
            // `graph6-rs` refuses a byte below the alphabet, and none is
            // left in a line that got this far.
            None => Err(IOError::InvalidBitByte),
        }
    } else {
        let mut bits: Vec<bool> = match unpack(body) {
            Ok(b) => b,
            Err(e) => {
                return Err(e);
            },
        };
        if (bits.len() as u128) < need {
            return Err(IOError::InsufficientBits);
        }
        proof {
            assert(order <= order * order) by (nonlinear_arith);
        }
        bits.truncate(need as usize);
        Ok(Graph { order: order as usize, cells: bits, directed: true })
    }
}

/// The natural number whose square is `len`, if there is one.
pub fn square_root(len: usize) -> (r: Option<usize>)
    ensures
        r is Some <==> is_square(len as nat),
        r matches Some(n) ==> n * n == len && n == root(len as nat),
{
    let mut n: usize = 0;
    let mut square: u128 = 0;
    while square < len as u128
        invariant
            n <= len,
            square == n * n,
            forall|m: nat| m < n ==> #[trigger] (m * m) < len,
        decreases len - n,
    {
        proof {
            assert(n < len) by (nonlinear_arith)
                requires
                    n * n < len,
                    n >= 0,
            ;
            assert((n + 1) * (n + 1) == n * n + 2 * n + 1) by (nonlinear_arith);
        }
        square = square + 2 * (n as u128) + 1;
        n += 1;
    }
    if square == len as u128 {
        proof {
            assert(n as nat * n as nat == len as nat);
            lemma_root_unique(root(len as nat), n as nat);
        }
        Some(n)
    } else {
        proof {
            if is_square(len as nat) {
                let m = root(len as nat);
                if m < n {
                    assert(m * m < len);
                } else {
                    assert(m * m >= n * n) by (nonlinear_arith)
                        requires
                            m >= n,
                    ;
                }
            }
        }
        None
    }
}

/// Joins every pair of vertices that a square matrix joins in either
/// direction, and empties the diagonal.
fn mirror(side: usize, cells: &Vec<bool>) -> (mirrored: Vec<bool>)
    requires
        cells@.len() == side * side,
    ensures
        mirrored@ == undirected_cells(cells@, side as nat),
{
    let n: usize = side;
    let mut mirrored: Vec<bool> = Vec::new();
    let mut i: usize = 0;
    proof {
        assert(cells@.len() == cells.len());
    }
    while i < n
        invariant
            n == side,
            i <= n,
            cells@.len() == n * n <= usize::MAX,
            mirrored@.len() == i * n,
            forall|k: int|
                0 <= k < mirrored@.len() ==> #[trigger] mirrored@[k] == (k / n as int != k
                    % n as int && (cells@[(k / n as int) * n + k % n as int] || cells@[(k
                    % n as int) * n + k / n as int])),
        decreases n - i,
    {
        let mut j: usize = 0;
        while j < n
            invariant
                n == side,
                i < n,
                j <= n,
                cells@.len() == n * n <= usize::MAX,
                mirrored@.len() == i * n + j,
                forall|k: int|
                    0 <= k < mirrored@.len() ==> #[trigger] mirrored@[k] == (k / n as int != k
                        % n as int && (cells@[(k / n as int) * n + k % n as int] || cells@[(k
                        % n as int) * n + k / n as int])),
            decreases n - j,
        {
            proof {
                lemma_cell_index(n as int, i as int, j as int);
                lemma_cell_index(n as int, j as int, i as int);
                assert(0 <= i * n <= i * n + j) by (nonlinear_arith);
                assert(0 <= j * n <= j * n + i) by (nonlinear_arith);
            }
            mirrored.push(i != j && (cells[i * n + j] || cells[j * n + i]));
            j += 1;
        }
        proof {
            assert(i * n + n == (i + 1) * n) by (nonlinear_arith);
        }
        i += 1;
    }
    proof {
        assert(mirrored@ =~= undirected_cells(cells@, n as nat));
    }
    mirrored
}

/// Decodes a flat line of `0` and `1` into a graph, directed or not as
/// the caller says.
///
/// A directed graph takes the cells as they stand. An undirected graph
/// is made symmetric: a `1` joins its two vertices in both directions,
/// and a `1` on the diagonal is dropped.
pub fn decode_flat(bytes: &[u8], directed: bool) -> (r: Result<Graph, IOError>)
    ensures
        agrees(r, flat_of(bytes@, directed)),
        r matches Ok(g) ==> g.directed == directed && g.valid(),
{
    let mut cells: Vec<bool> = Vec::new();
    let mut k: usize = 0;
    while k < bytes.len()
        invariant
            k <= bytes@.len(),
            all_flat(bytes@.take(k as int)),
            cells@ == flat_cells(bytes@.take(k as int)),
        decreases bytes@.len() - k,
    {
        let b: u8 = bytes[k];
        if b != ZERO && b != ONE {
            proof {
                assert(!(bytes@[k as int] == ZERO || bytes@[k as int] == ONE));
            }
            return Err(IOError::InvalidCharacter);
        }
        cells.push(b == ONE);
        k += 1;
        proof {
            assert(cells@ =~= flat_cells(bytes@.take(k as int)));
            assert forall|t: int| 0 <= t < k implies #[trigger] bytes@.take(k as int)[t] == ZERO
                || bytes@.take(k as int)[t] == ONE by {
                if t < k - 1 {
                    assert(bytes@.take(k - 1)[t] == bytes@[t]);
                }
            }
        }
    }
    proof {
        assert(bytes@.take(k as int) =~= bytes@);
        lemma_undirected_cells_simple(flat_cells(bytes@), root(bytes@.len()));
    }
    match square_root(bytes.len()) {
        Some(side) => {
            if directed {
                Ok(Graph { order: side, cells, directed })
            } else {
                let mirrored = mirror(side, &cells);
                Ok(Graph { order: side, cells: mirrored, directed })
            }
        },
        None => Err(IOError::NotASquare),
    }
}

/// The format that the first character of a line announces.
pub fn detect(bytes: &[u8]) -> (r: Graph6Format)
    ensures
        r == detected(bytes@),
{
    if bytes.len() == 0 {
        Graph6Format::Graph
    } else if bytes[0] == AMPERSAND {
        Graph6Format::Digraph
    } else if bytes[0] == COLON {
        Graph6Format::Sparse6
    } else if bytes[0] == SEMICOLON {
        Graph6Format::IncSparse6
    } else if bytes[0] == ZERO || bytes[0] == ONE {
        Graph6Format::Flat
    } else {
        Graph6Format::Graph
    }
}

/// Reads a line as a graph in the given format; under `Auto` in the
/// format that its first character announces.
pub fn read_graph(repr: &[u8], format: Graph6Format) -> (r: Result<Graph, IOError>)
    ensures
        agrees(r, graph_of(repr@, format)),
        r matches Ok(g) ==> g.valid(),
{
    let chosen: Graph6Format = match format {
        Graph6Format::Auto => detect(repr),
        _ => format,
    };
    match chosen {
        Graph6Format::Graph => decode_graph6(repr),
        Graph6Format::Digraph => decode_digraph6(repr),
        Graph6Format::Flat => decode_flat(repr, false),
        Graph6Format::Flatd => decode_flat(repr, true),
        _ => Err(IOError::Unsupported),
    }
}

} // verus!
