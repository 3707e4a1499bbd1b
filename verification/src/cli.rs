//! The options of a run.
use crate::formats::{Graph6Format, OutputFormat};
use vstd::prelude::*;

verus! {

/// What a run reads, how it reads it, and what it writes.
#[derive(Debug)]
pub struct Cli {
    /// The path to the file to read
    pub input: Option<String>,
    /// The path to the file to write
    pub output: Option<String>,
    /// The graph6 format to use
    pub iformat: Graph6Format,
    /// The output format to use
    pub oformat: OutputFormat,
    /// Number of graphs to write
    pub count: Option<usize>,
    /// Number of graphs to skip
    pub skip: Option<usize>,
}

impl Default for Cli {
    /// Standard input, every line, the format found from each line, DOT
    /// as output.
    fn default() -> (r: Self)
        ensures
            r.input is None,
            r.output is None,
            r.iformat == Graph6Format::Auto,
            r.oformat == OutputFormat::DOT,
            r.count is None,
            r.skip is None,
    {
        Cli {
            input: None,
            output: None,
            iformat: Graph6Format::Auto,
            oformat: OutputFormat::DOT,
            count: None,
            skip: None,
        }
    }
}

} // verus!
