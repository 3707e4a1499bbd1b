//! The calls into the `graph6-rs` crate, and the conversions around them.
//!
//! `graph6-rs` reads and writes the short form of the graph6 family, in
//! which one byte holds the order. It stores a matrix as a vector of
//! numbers, one for each cell and row by row, where 1 stands for an edge.
//! What the functions below state of its results is taken on trust from
//! its source; everything else in this crate is proved.
use crate::bits::{all_printable, packed, unpacked};
use crate::decode::graph6_cells;
use crate::encode::cell_char;
use crate::triangle::{below_diagonal, triangle};
use vstd::prelude::*;

verus! {

/// The cells that a vector of numbers stands for: 1 is an edge.
pub open spec fn flags(numbers: Seq<usize>) -> Seq<bool> {
    numbers.map_values(|x: usize| x == 1)
}

/// The numbers that stand for a sequence of cells: 1 for an edge, else 0.
pub open spec fn numbers_of(cells: Seq<bool>) -> Seq<usize> {
    cells.map_values(
        |b: bool|
            if b {
                1usize
            } else {
                0usize
            },
    )
}

/// Calls `graph6_rs::Graph::from_g6` on a line in the short form of
/// graph6 and returns the matrix it built, if it built one.
///
/// On a line whose first byte gives an order from 1 to 62 and whose other
/// bytes are all printable, `from_g6` succeeds exactly when those bytes
/// hold a bit for each cell above the diagonal. Its matrix is the
/// symmetric matrix with an empty diagonal whose upper triangle, column
/// by column, is the unpacked bits.
#[verifier::external_body]
pub(crate) fn short_graph6(line: &[u8]) -> (r: Option<Vec<usize>>)
    requires
        line@.len() >= 1,
        64 <= line@[0] <= 125,
        all_printable(line@.skip(1)),
    ensures
        r is Some <==> triangle((line@[0] - 63) as nat) <= 6 * (line@.len() - 1),
        r matches Some(numbers) ==> flags(numbers@) == graph6_cells(
            (line@[0] - 63) as nat,
            unpacked(line@.skip(1)),
        ),
{
    let text = String::from_utf8_lossy(line);
    graph6_rs::Graph::from_g6(&text).ok().map(|g| g.bit_vec)
}

/// Calls `graph6_rs::DiGraph::from_d6` on a line in the short form of
/// digraph6 and returns the bits it collected.
///
/// On a line that begins with `&`, whose second byte gives an order up to
/// 62, and whose other bytes are all printable and hold enough bits,
/// `from_d6` succeeds, and its vector begins with the cells of the
/// matrix, row by row: the first `order * order` unpacked bits. The
/// vector may go on after them.
#[verifier::external_body]
pub(crate) fn short_digraph6(line: &[u8]) -> (r: Option<Vec<usize>>)
    requires
        line@.len() >= 2,
        line@[0] == 38,
        63 <= line@[1] <= 125,
        all_printable(line@.skip(2)),
        (line@[1] - 63) * (line@[1] - 63) <= 6 * (line@.len() - 2),
    ensures
        r is Some,
        r matches Some(numbers) ==> numbers@.len() >= (line@[1] - 63) * (line@[1] - 63),
        r matches Some(numbers) ==> flags(numbers@).take((line@[1] - 63) * (line@[1] - 63))
            == unpacked(line@.skip(2)).take((line@[1] - 63) * (line@[1] - 63)),
{
    let text = String::from_utf8_lossy(line);
    graph6_rs::DiGraph::from_d6(&text).ok().map(|g| g.bit_vec)
}

/// What `graph6-rs` writes for a matrix in the short form of the graph6
/// family: for a directed graph `&`, the order plus 63, and the packed
/// cells; for an undirected one the order plus 63 and the packed cells
/// below the diagonal, row by row.
pub open spec fn short_nauty_text(cells: Seq<bool>, n: nat, directed: bool) -> Seq<u8> {
    if directed {
        seq![38u8, (n + 63) as u8] + packed(cells)
    } else {
        seq![(n + 63) as u8] + packed(below_diagonal(cells, n, n))
    }
}

/// Calls `graph6_rs::write_graph6` on a matrix of at most 62 vertices.
///
/// For a square matrix of zeros and ones it returns the bytes of
/// `short_nauty_text`. An undirected matrix must have a vertex: without
/// one `write_graph6` takes one from zero.
#[verifier::external_body]
pub(crate) fn short_nauty(numbers: Vec<usize>, order: usize, directed: bool) -> (text: Vec<u8>)
    requires
        numbers@.len() == order * order,
        forall|k: int| 0 <= k < numbers@.len() ==> #[trigger] numbers@[k] <= 1,
        order <= 62,
        directed || order >= 1,
    ensures
        text@ == short_nauty_text(flags(numbers@), order as nat, directed),
{
    graph6_rs::write_graph6(numbers, order, directed).into_bytes()
}

/// Calls `to_flat` of `graph6_rs::GraphConversion` on a matrix.
///
/// For a square matrix of zeros and ones it returns one character for
/// each cell, row by row: `1` for an edge, `0` for none.
#[verifier::external_body]
pub(crate) fn flat_digits(numbers: Vec<usize>, order: usize) -> (text: Vec<u8>)
    requires
        numbers@.len() == order * order,
        forall|k: int| 0 <= k < numbers@.len() ==> #[trigger] numbers@[k] <= 1,
    ensures
        text@ == flags(numbers@).map_values(|b: bool| cell_char(b)),
{
    let graph = graph6_rs::DiGraph { bit_vec: numbers, n: order };
    graph6_rs::GraphConversion::to_flat(&graph).into_bytes()
}

/// The first `count` numbers as cells.
pub fn to_flags(numbers: &Vec<usize>, count: usize) -> (cells: Vec<bool>)
    requires
        count <= numbers@.len(),
    ensures
        cells@ == flags(numbers@).take(count as int),
{
    let mut cells: Vec<bool> = Vec::new();
    let mut k: usize = 0;
    while k < count
        invariant
            k <= count <= numbers@.len(),
            cells@ == flags(numbers@).take(k as int),
        decreases count - k,
    {
        cells.push(numbers[k] == 1);
        k += 1;
        proof {
            assert(cells@ =~= flags(numbers@).take(k as int));
        }
    }
    cells
}

/// The cells as numbers.
pub fn to_numbers(cells: &Vec<bool>) -> (numbers: Vec<usize>)
    ensures
        numbers@ == numbers_of(cells@),
        flags(numbers@) == cells@,
        forall|k: int| 0 <= k < numbers@.len() ==> #[trigger] numbers@[k] <= 1,
{
    let mut numbers: Vec<usize> = Vec::new();
    let mut k: usize = 0;
    while k < cells.len()
        invariant
            k <= cells@.len(),
            numbers@ == numbers_of(cells@).take(k as int),
        decreases cells@.len() - k,
    {
        numbers.push(if cells[k] { 1 } else { 0 });
        k += 1;
        proof {
            assert(numbers@ =~= numbers_of(cells@).take(k as int));
        }
    }
    proof {
        assert(numbers@ =~= numbers_of(cells@));
        assert(flags(numbers@) =~= cells@);
    }
    numbers
}

} // verus!
