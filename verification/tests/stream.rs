use graph6_convert::cli::Cli;
use graph6_convert::error::IOError;
use graph6_convert::formats::{Graph6Format, OutputFormat};
use graph6_convert::graph::Graph;
use graph6_convert::stream::{convert, render, Progress, Step};

fn text(bytes: Vec<u8>) -> String {
    String::from_utf8(bytes).unwrap()
}

fn steps(lines: &[&str], skip: Option<usize>, count: Option<usize>) -> Vec<Step> {
    let mut progress = Progress::new();
    let mut out = Vec::new();
    for line in lines {
        let step = progress.advance(line.is_empty(), skip, count);
        out.push(step);
        if step == Step::Stop {
            break;
        }
    }
    out
}

#[test]
fn every_line_is_converted_without_limits() {
    assert_eq!(
        steps(&["A_", "Bw", "Cr"], None, None),
        vec![Step::Convert(1), Step::Convert(2), Step::Convert(3)]
    );
}

#[test]
fn empty_lines_are_not_counted() {
    assert_eq!(
        steps(&["", "A_", "", "", "Bw"], None, None),
        vec![Step::Skip, Step::Convert(1), Step::Skip, Step::Skip, Step::Convert(2)]
    );
    let mut progress = Progress::new();
    assert_eq!(progress.advance(true, Some(3), Some(0)), Step::Skip);
    assert_eq!(progress, Progress::new());
}

#[test]
fn the_first_lines_are_skipped() {
    assert_eq!(
        steps(&["A_", "Bw", "Cr", "C~"], Some(2), None),
        vec![Step::Skip, Step::Skip, Step::Convert(3), Step::Convert(4)]
    );
    assert_eq!(steps(&["A_", "Bw"], Some(0), None), vec![Step::Convert(1), Step::Convert(2)]);
}

#[test]
fn the_stream_stops_after_count_graphs() {
    assert_eq!(
        steps(&["A_", "Bw", "Cr", "C~"], None, Some(2)),
        vec![Step::Convert(1), Step::Convert(2), Step::Stop]
    );
    assert_eq!(steps(&["A_", "Bw"], None, Some(0)), vec![Step::Stop]);
}

#[test]
fn skip_and_count_together() {
    assert_eq!(
        steps(&["A_", "", "Bw", "Cr", "C~", "A?"], Some(1), Some(2)),
        vec![Step::Skip, Step::Skip, Step::Convert(2), Step::Convert(3), Step::Stop]
    );
    // Lines are skipped before the count is looked at.
    assert_eq!(steps(&["A_", "Bw"], Some(1), Some(0)), vec![Step::Skip, Step::Stop]);
}

#[test]
fn progress_counts_lines_and_graphs() {
    let mut progress = Progress::new();
    assert_eq!(progress, Progress { idx: 0, n_graphs: 0 });
    progress.advance(false, Some(1), Some(1));
    assert_eq!(progress, Progress { idx: 1, n_graphs: 0 });
    progress.advance(false, Some(1), Some(1));
    assert_eq!(progress, Progress { idx: 2, n_graphs: 1 });
    progress.advance(false, Some(1), Some(1));
    assert_eq!(progress, Progress { idx: 3, n_graphs: 1 });
}

#[test]
fn a_line_is_converted_into_each_output() {
    let auto = Graph6Format::Auto;
    assert_eq!(convert(b"A_", auto, OutputFormat::Adjmat, 1).map(text), Ok("01\n10".to_string()));
    assert_eq!(
        convert(b"A_", auto, OutputFormat::DOT, 5).map(text),
        Ok("graph graph_5 {\n0 -- 1;\n}".to_string())
    );
    assert_eq!(
        convert(b"&AG", auto, OutputFormat::NET, 1).map(text),
        Ok("*Vertices 2\n1 \"0\"\n2 \"1\"\n*Arcs\n2 1\n".to_string())
    );
    assert_eq!(convert(b"Cr", auto, OutputFormat::Flat, 1).map(text), Ok("0110100110010110".to_string()));
    assert_eq!(convert(b"0110100110010110", auto, OutputFormat::Nauty, 1).map(text), Ok("Cr".to_string()));
    assert_eq!(convert(b"0010", Graph6Format::Flatd, OutputFormat::Nauty, 1).map(text), Ok("&AG".to_string()));
}

#[test]
fn a_bad_line_gives_its_error_and_nothing_else() {
    assert_eq!(convert(&[200], Graph6Format::Auto, OutputFormat::DOT, 1), Err(IOError::InvalidSizeByte));
    assert_eq!(convert(b"A1", Graph6Format::Auto, OutputFormat::DOT, 1), Err(IOError::InvalidBitByte));
    assert_eq!(convert(b"C", Graph6Format::Auto, OutputFormat::DOT, 1), Err(IOError::InsufficientBits));
    assert_eq!(convert(b"011", Graph6Format::Auto, OutputFormat::DOT, 1), Err(IOError::NotASquare));
    assert_eq!(convert(b"01x0", Graph6Format::Flat, OutputFormat::DOT, 1), Err(IOError::InvalidCharacter));
    assert_eq!(convert(b"AG", Graph6Format::Digraph, OutputFormat::DOT, 1), Err(IOError::FormatMismatch));
    assert_eq!(convert(b":An", Graph6Format::Auto, OutputFormat::DOT, 1), Err(IOError::Unsupported));
}

#[test]
fn a_batch_goes_on_after_a_bad_line() {
    let lines: Vec<&[u8]> = vec![&b"A_"[..], &[200, 63][..], &b""[..], &b"&AG"[..], &b"C"[..]];
    let mut progress = Progress::new();
    let mut written = Vec::new();
    let mut failed = Vec::new();
    for line in lines {
        if let Step::Convert(idx) = progress.advance(line.is_empty(), None, None) {
            match convert(line, Graph6Format::Auto, OutputFormat::Flat, idx) {
                Ok(out) => written.push((idx, text(out))),
                Err(e) => failed.push((idx, e)),
            }
        }
    }
    assert_eq!(written, vec![(1, "0110".to_string()), (3, "0010".to_string())]);
    assert_eq!(failed, vec![(2, IOError::InvalidSizeByte), (4, IOError::InsufficientBits)]);
}

#[test]
fn render_writes_each_format() {
    let g = Graph::new(2, vec![false, true, true, false], false).unwrap();
    assert_eq!(text(render(&g, OutputFormat::Adjmat, 9)), "01\n10");
    assert_eq!(text(render(&g, OutputFormat::DOT, 9)), "graph graph_9 {\n0 -- 1;\n}");
    assert_eq!(text(render(&g, OutputFormat::NET, 9)), "*Vertices 2\n1 \"0\"\n2 \"1\"\n*Edges\n1 2\n");
    assert_eq!(text(render(&g, OutputFormat::Flat, 9)), "0110");
    assert_eq!(text(render(&g, OutputFormat::Nauty, 9)), "A_");
}

#[test]
fn default_options() {
    let cli = Cli::default();
    assert_eq!(cli.input, None);
    assert_eq!(cli.output, None);
    assert_eq!(cli.iformat, Graph6Format::Auto);
    assert_eq!(cli.oformat, OutputFormat::DOT);
    assert_eq!(cli.count, None);
    assert_eq!(cli.skip, None);
}
