//! The decisions taken for each line of a stream of graphs: which lines
//! are passed over, when to stop, and what a line is converted into.
//! Reading the lines and writing the results is left to the caller.
use crate::decode::{graph_of, read_graph};
use crate::encode::{adjmat_text, dot_text, flat_text, nauty_text, net_text};
use crate::error::IOError;
use crate::formats::{Graph6Format, OutputFormat};
use crate::graph::{Graph, GraphView};
use vstd::prelude::*;

verus! {

/// How far a stream has been read.
#[derive(Debug, Clone, Copy, PartialEq, Eq, Structural)]
pub struct Progress {
    /// The number of lines seen that were not empty.
    pub idx: usize,
    /// The number of lines converted.
    pub n_graphs: usize,
}

/// What to do with a line.
#[derive(Debug, Clone, Copy, PartialEq, Eq, Structural)]
pub enum Step {
    /// Pass over the line and read on.
    Skip,
    /// Read no further.
    Stop,
    /// Convert the line, which is the non-empty line of this number,
    /// counted from 1.
    Convert(usize),
}

impl Progress {
    /// No more lines were converted than were seen.
    pub open spec fn wf(self) -> bool {
        self.n_graphs <= self.idx
    }

    /// Nothing read yet.
    pub fn new() -> (p: Progress)
        ensures
            p.wf(),
            p.idx == 0,
            p.n_graphs == 0,
    {
        Progress { idx: 0, n_graphs: 0 }
    }

    /// The progress after a line, and what is done with the line.
    ///
    /// An empty line changes nothing and is passed over. Any other line is
    /// counted. It is passed over while no more than `skip` lines have
    /// been counted; the stream stops once `count` lines were converted;
    /// otherwise the line is converted.
    pub open spec fn after(self, empty: bool, skip: Option<usize>, count: Option<usize>) -> (
        Progress,
        Step,
    ) {
        let seen = (self.idx + 1) as usize;
        if empty {
            (self, Step::Skip)
        } else if skip is Some && seen <= skip->0 {
            (Progress { idx: seen, n_graphs: self.n_graphs }, Step::Skip)
        } else if count is Some && self.n_graphs >= count->0 {
            (Progress { idx: seen, n_graphs: self.n_graphs }, Step::Stop)
        } else {
            (Progress { idx: seen, n_graphs: (self.n_graphs + 1) as usize }, Step::Convert(seen))
        }
    }

    /// The progress after a run of lines, of which `empties` says in turn
    /// whether each is empty. The run ends with the lines or at the first
    /// `Stop`.
    pub open spec fn after_all(
        self,
        empties: Seq<bool>,
        skip: Option<usize>,
        count: Option<usize>,
    ) -> Progress
        decreases empties.len(),
    {
        if empties.len() == 0 {
            self
        } else {
            let (next, step) = self.after(empties[0], skip, count);
            if step == Step::Stop {
                next
            } else {
                next.after_all(empties.drop_first(), skip, count)
            }
        }
    }

    /// Takes note of a line and says what is done with it.
    pub fn advance(&mut self, empty: bool, skip: Option<usize>, count: Option<usize>) -> (step:
        Step)
        requires
            old(self).wf(),
            old(self).idx < usize::MAX,
        ensures
            (*final(self), step) == old(self).after(empty, skip, count),
            final(self).wf(),
            final(self).idx <= old(self).idx + 1,
            step matches Step::Convert(i) ==> i == final(self).idx && (skip matches Some(s) ==> i
                > s) && (count matches Some(c) ==> final(self).n_graphs <= c),
            step != Step::Convert(final(self).idx) ==> final(self).n_graphs == old(self).n_graphs,
    {
        if empty {
            return Step::Skip;
        }
        self.idx = self.idx + 1;
        if let Some(s) = skip {
            if self.idx <= s {
                return Step::Skip;
            }
        }
        if let Some(c) = count {
            if self.n_graphs >= c {
                return Step::Stop;
            }
        }
        self.n_graphs = self.n_graphs + 1;
        Step::Convert(self.idx)
    }
}

/// However many lines are read, no more than `count` of them are
/// converted.
pub proof fn law_count_kept(p: Progress, empties: Seq<bool>, skip: Option<usize>, count: usize)
    requires
        p.n_graphs <= count,
    ensures
        p.after_all(empties, skip, Some(count)).n_graphs <= count,
    decreases empties.len(),
{
    if empties.len() > 0 {
        let (next, step) = p.after(empties[0], skip, Some(count));
        if step != Step::Stop {
            law_count_kept(next, empties.drop_first(), skip, count);
        }
    }
}

/// The text of a graph in an output format. DOT names the graph by the
/// number of its line.
pub open spec fn rendered(g: GraphView, oformat: OutputFormat, idx: usize) -> Seq<u8> {
    match oformat {
        OutputFormat::Adjmat => adjmat_text(g),
        OutputFormat::DOT => dot_text(g, Some(idx)),
        OutputFormat::NET => net_text(g),
        OutputFormat::Flat => flat_text(g),
        OutputFormat::Nauty => nauty_text(g),
    }
}

/// What a line is converted into: the text of its graph, or the reason
/// why it is no graph.
pub open spec fn converted(
    bytes: Seq<u8>,
    iformat: Graph6Format,
    oformat: OutputFormat,
    idx: usize,
) -> Result<Seq<u8>, IOError> {
    match graph_of(bytes, iformat) {
        Ok(g) => Ok(rendered(g, oformat, idx)),
        Err(e) => Err(e),
    }
}

/// Writes a graph in an output format.
pub fn render(g: &Graph, oformat: OutputFormat, idx: usize) -> (text: Vec<u8>)
    requires
        g.valid(),
    ensures
        text@ == rendered(g@, oformat, idx),
{
    match oformat {
        OutputFormat::Adjmat => g.to_adjmat(),
        OutputFormat::DOT => g.to_dot(Some(idx)),
        OutputFormat::NET => g.to_net(),
        OutputFormat::Flat => g.to_flat(),
        OutputFormat::Nauty => g.write_graph(),
    }
}

/// Converts one line: reads it in the input format and writes its graph
/// in the output format. A line that fails leaves nothing behind but its
/// error.
pub fn convert(repr: &[u8], iformat: Graph6Format, oformat: OutputFormat, idx: usize) -> (r:
    Result<Vec<u8>, IOError>)
    ensures
        match r {
            Ok(text) => converted(repr@, iformat, oformat, idx) == Ok::<Seq<u8>, IOError>(text@),
            Err(e) => converted(repr@, iformat, oformat, idx) == Err::<Seq<u8>, IOError>(e),
        },
{
    match read_graph(repr, iformat) {
        Ok(g) => Ok(render(&g, oformat, idx)),
        Err(e) => Err(e),
    }
}

} // verus!
