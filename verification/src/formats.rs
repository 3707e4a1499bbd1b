//! The input and output formats a caller can choose.
use vstd::prelude::*;

verus! {

/// The encoding in which a line is read.
#[derive(Debug, Clone, Copy, PartialEq, Eq, Structural)]
pub enum Graph6Format {
    /// The undirected format
    Graph,
    /// The digraph format
    Digraph,
    /// The sparse6 format
    Sparse6,
    /// The incremental sparse6 format
    IncSparse6,
    /// Flat undirected adjacency matrix format
    Flat,
    /// Flat directed adjacency matrix format
    Flatd,
    /// Automatically determine the format
    Auto,
}

impl Default for Graph6Format {
    fn default() -> (r: Self)
        ensures
            r == Graph6Format::Auto,
    {
        Graph6Format::Auto
    }
}

/// The representation in which a graph is written.
#[derive(Debug, Clone, Copy, PartialEq, Eq, Structural)]
pub enum OutputFormat {
    /// The adjacency matrix format
    Adjmat,
    /// The DOT format
    DOT,
    /// The Pajek NET format
    NET,
    /// A flat adjacency matrix format
    Flat,
    /// The Nauty Graph6/Digraph6 format
    Nauty,
}

impl Default for OutputFormat {
    fn default() -> (r: Self)
        ensures
            r == OutputFormat::DOT,
    {
        OutputFormat::DOT
    }
}

} // verus!
