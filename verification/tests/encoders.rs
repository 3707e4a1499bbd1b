use graph6_convert::decode::{decode_digraph6, decode_flat, decode_graph6};
use graph6_convert::encode::{append, append_decimal};
use graph6_convert::formats::OutputFormat;
use graph6_convert::graph::Graph;

fn cells(text: &str) -> Vec<bool> {
    text.bytes().filter(|b| *b == b'0' || *b == b'1').map(|b| b == b'1').collect()
}

fn text(bytes: Vec<u8>) -> String {
    String::from_utf8(bytes).unwrap()
}

fn graph(order: usize, matrix: &str, directed: bool) -> Graph {
    Graph::new(order, cells(matrix), directed).unwrap()
}

#[test]
fn graph_new_wants_a_square() {
    assert!(Graph::new(2, vec![false; 4], false).is_some());
    assert!(Graph::new(2, vec![false; 3], false).is_none());
    assert!(Graph::new(2, vec![false; 5], true).is_none());
    assert!(Graph::new(0, vec![], true).is_some());
    assert!(Graph::new(0, vec![false], true).is_none());
    let g = Graph::new(3, cells("010 001 100"), true).unwrap();
    assert_eq!(g.order, 3);
    assert!(g.directed);
    assert_eq!(g.cells, cells("010 001 100"));
}

#[test]
fn graph_new_wants_an_undirected_graph_simple() {
    assert!(Graph::new(3, cells("011 101 110"), false).is_some());
    assert!(Graph::new(2, cells("01 00"), false).is_none());
    assert!(Graph::new(2, cells("00 10"), false).is_none());
    assert!(Graph::new(1, cells("1"), false).is_none());
    assert!(Graph::new(2, cells("11 11"), false).is_none());
    assert!(Graph::new(2, cells("01 00"), true).is_some());
    assert!(Graph::new(1, cells("1"), true).is_some());
}

#[test]
fn graph_edges_and_rows() {
    let g = graph(3, "010 001 100", true);
    assert!(g.edge(0, 1));
    assert!(!g.edge(1, 0));
    assert!(g.edge(1, 2));
    assert!(g.edge(2, 0));
    assert_eq!(
        g.rows(),
        vec![vec![false, true, false], vec![false, false, true], vec![true, false, false]]
    );
    assert_eq!(g.clone(), g);
}

#[test]
fn graph_is_simple() {
    assert!(graph(3, "011 101 110", false).is_simple());
    assert!(graph(0, "", false).is_simple());
    assert!(graph(3, "011 101 110", true).is_simple());
    assert!(!graph(3, "011 001 110", true).is_simple());
    assert!(!graph(2, "10 00", true).is_simple());
    assert!(!graph(2, "01 11", true).is_simple());
    assert!(!Graph { order: 2, cells: cells("01 00"), directed: false }.is_simple());
}

#[test]
fn decimal_digits() {
    let mut out = b"n=".to_vec();
    append_decimal(&mut out, 0);
    append(&mut out, b", ");
    append_decimal(&mut out, 7);
    append(&mut out, b", ");
    append_decimal(&mut out, 10);
    append(&mut out, b", ");
    append_decimal(&mut out, 4096);
    append(&mut out, b", ");
    append_decimal(&mut out, 18446744073709551615);
    assert_eq!(text(out), "n=0, 7, 10, 4096, 18446744073709551615");
}

#[test]
fn flat_text_of_a_graph() {
    assert_eq!(text(decode_graph6(b"A_").unwrap().to_flat()), "0110");
    assert_eq!(text(decode_digraph6(b"&AG").unwrap().to_flat()), "0010");
    assert_eq!(text(decode_graph6(b"Cr").unwrap().to_flat()), "0110100110010110");
    assert_eq!(text(graph(0, "", false).to_flat()), "");
    assert_eq!(text(graph(1, "1", true).to_flat()), "1");
}

#[test]
fn adjacency_matrix_text() {
    assert_eq!(text(decode_graph6(b"A_").unwrap().to_adjmat()), "01\n10");
    assert_eq!(text(decode_digraph6(b"&C]|w").unwrap().to_adjmat()), "0111\n1011\n1101\n1110");
    assert_eq!(text(graph(1, "0", false).to_adjmat()), "0");
    assert_eq!(text(graph(0, "", false).to_adjmat()), "");
    assert_eq!(text(graph(2, "01 00", true).to_adjmat()), "01\n00");
}

#[test]
fn dot_of_an_undirected_graph() {
    let g = decode_graph6(b"A_").unwrap();
    assert_eq!(text(g.to_dot(None)), "graph {\n0 -- 1;\n}");
    assert_eq!(text(g.to_dot(Some(1))), "graph graph_1 {\n0 -- 1;\n}");
    assert_eq!(text(g.to_dot(Some(120))), "graph graph_120 {\n0 -- 1;\n}");
    let g = decode_graph6(b"Cr").unwrap();
    assert_eq!(text(g.to_dot(None)), "graph {\n0 -- 1;\n0 -- 2;\n1 -- 3;\n2 -- 3;\n}");
    assert_eq!(text(graph(2, "00 00", false).to_dot(None)), "graph {\n}");
    assert_eq!(text(graph(0, "", false).to_dot(Some(0))), "graph graph_0 {\n}");
}

#[test]
fn dot_of_a_directed_graph() {
    let g = decode_digraph6(b"&AG").unwrap();
    assert_eq!(text(g.to_dot(None)), "digraph {\n1 -> 0;\n}");
    assert_eq!(text(g.to_dot(Some(1))), "digraph graph_1 {\n1 -> 0;\n}");
    let g = decode_digraph6(b"&B\\o").unwrap();
    assert_eq!(
        text(g.to_dot(Some(7))),
        "digraph graph_7 {\n0 -> 1;\n0 -> 2;\n1 -> 0;\n1 -> 2;\n2 -> 0;\n2 -> 1;\n}"
    );
}

#[test]
fn dot_leaves_out_the_loops_of_a_directed_graph() {
    let g = graph(2, "11 01", true);
    assert_eq!(text(g.to_dot(None)), "digraph {\n0 -> 1;\n}");
    let g = graph(1, "1", true);
    assert_eq!(text(g.to_dot(None)), "digraph {\n}");
}

#[test]
fn dot_writes_each_edge_of_an_undirected_graph_once() {
    let g = graph(3, "010 101 010", false);
    assert_eq!(text(g.to_dot(None)), "graph {\n0 -- 1;\n1 -- 2;\n}");
    assert_eq!(text(g.to_net()), "*Vertices 3\n1 \"0\"\n2 \"1\"\n3 \"2\"\n*Edges\n1 2\n2 3\n");
}

#[test]
fn dot_with_vertices_of_two_digits() {
    let mut matrix = vec![false; 121];
    matrix[9 * 11 + 10] = true;
    matrix[10 * 11 + 9] = true;
    let g = Graph::new(11, matrix, false).unwrap();
    assert_eq!(text(g.to_dot(Some(12))), "graph graph_12 {\n9 -- 10;\n}");
    assert_eq!(
        text(g.to_net()),
        "*Vertices 11\n1 \"0\"\n2 \"1\"\n3 \"2\"\n4 \"3\"\n5 \"4\"\n6 \"5\"\n7 \"6\"\n8 \"7\"\n9 \"8\"\n10 \"9\"\n11 \"10\"\n*Edges\n10 11\n"
    );
}

#[test]
fn net_of_a_directed_graph() {
    let g = decode_digraph6(b"&AG").unwrap();
    assert_eq!(text(g.to_net()), "*Vertices 2\n1 \"0\"\n2 \"1\"\n*Arcs\n2 1\n");
    let g = graph(2, "11 10", true);
    assert_eq!(text(g.to_net()), "*Vertices 2\n1 \"0\"\n2 \"1\"\n*Arcs\n1 1\n1 2\n2 1\n");
}

#[test]
fn net_of_an_undirected_graph() {
    let g = decode_graph6(b"A_").unwrap();
    assert_eq!(text(g.to_net()), "*Vertices 2\n1 \"0\"\n2 \"1\"\n*Edges\n1 2\n");
    let g = decode_graph6(b"Bw").unwrap();
    assert_eq!(
        text(g.to_net()),
        "*Vertices 3\n1 \"0\"\n2 \"1\"\n3 \"2\"\n*Edges\n1 2\n1 3\n2 3\n"
    );
    assert_eq!(text(graph(0, "", false).to_net()), "*Vertices 0\n*Edges\n");
}

#[test]
fn graph6_text_of_known_graphs() {
    assert_eq!(text(graph(2, "01 10", false).write_graph()), "A_");
    assert_eq!(text(graph(3, "011 101 110", false).write_graph()), "Bw");
    assert_eq!(text(graph(4, "0111 1011 1101 1110", false).write_graph()), "C~");
    assert_eq!(text(graph(4, "0110 1001 1001 0110", false).write_graph()), "Cr");
    assert_eq!(text(graph(1, "0", false).write_graph()), "@");
    assert_eq!(text(graph(0, "", false).write_graph()), "?");
}

#[test]
fn graph6_text_lists_the_cells_column_by_column() {
    assert_eq!(text(graph(3, "001 000 100", false).write_graph()), "BO");
    assert_eq!(text(graph(4, "0000 0010 0100 0000", false).write_graph()), "CG");
    assert_eq!(text(graph(4, "0001 0000 0000 1000", false).write_graph()), "CC");
}

#[test]
fn digraph6_text_of_known_graphs() {
    assert_eq!(text(graph(2, "00 10", true).write_graph()), "&AG");
    assert_eq!(text(graph(2, "01 10", true).write_graph()), "&AW");
    assert_eq!(text(graph(3, "011 101 110", true).write_graph()), "&B\\o");
    assert_eq!(text(graph(4, "0111 1011 1101 1110", true).write_graph()), "&C]|w");
    assert_eq!(text(graph(0, "", true).write_graph()), "&?");
}

#[test]
fn graph6_round_trip_of_every_graph_on_four_vertices() {
    for code in 0u32..64 {
        let mut matrix = vec![false; 16];
        let mut bit = 0;
        for j in 1..4 {
            for i in 0..j {
                if code >> bit & 1 == 1 {
                    matrix[i * 4 + j] = true;
                    matrix[j * 4 + i] = true;
                }
                bit += 1;
            }
        }
        let g = Graph::new(4, matrix, false).unwrap();
        let line = g.write_graph();
        assert_eq!(line.len(), 2);
        assert_eq!(decode_graph6(&line), Ok(g));
    }
}

#[test]
fn graph6_round_trip_at_62_and_63_vertices() {
    for order in [62usize, 63, 64, 70] {
        let mut matrix = vec![false; order * order];
        for i in 0..order {
            for j in 0..order {
                matrix[i * order + j] = i != j && (i * j + i + j) % 3 == 0;
            }
        }
        let g = Graph::new(order, matrix, false).unwrap();
        assert!(g.is_simple());
        let line = g.write_graph();
        let prefix = if order <= 62 { 1 } else { 4 };
        assert_eq!(line.len(), prefix + (order * (order - 1) / 2 + 5) / 6);
        assert_eq!(decode_graph6(&line), Ok(g));
    }
}

#[test]
fn digraph6_round_trip() {
    for order in [0usize, 1, 2, 5, 62, 63, 65] {
        let mut matrix = vec![false; order * order];
        for i in 0..order {
            for j in 0..order {
                matrix[i * order + j] = (3 * i + 5 * j) % 4 == 1;
            }
        }
        let g = Graph::new(order, matrix, true).unwrap();
        let line = g.write_graph();
        assert_eq!(line[0], b'&');
        let prefix = if order <= 62 { 1 } else { 4 };
        assert_eq!(line.len(), 1 + prefix + (order * order + 5) / 6);
        assert_eq!(decode_digraph6(&line), Ok(g));
    }
}

#[test]
fn upper_triangle_column_by_column() {
    let g = graph(4, "0110 1001 1001 0110", false);
    assert_eq!(g.upper_triangle(), vec![true, true, false, false, true, true]);
    let g = graph(3, "011 000 000", true);
    assert_eq!(g.upper_triangle(), vec![true, true, false]);
    assert_eq!(graph(1, "1", true).upper_triangle(), Vec::<bool>::new());
}

#[test]
fn flat_input_goes_to_every_output() {
    let g = decode_flat(b"0110100110010110", false).unwrap();
    assert_eq!(text(g.write_graph()), "Cr");
    assert_eq!(text(g.to_adjmat()), "0110\n1001\n1001\n0110");
    let g = decode_flat(b"0110100110010110", true).unwrap();
    assert_eq!(text(g.write_graph()), "&CYXW");
}

#[test]
fn default_output_is_dot() {
    assert_eq!(OutputFormat::default(), OutputFormat::DOT);
}
