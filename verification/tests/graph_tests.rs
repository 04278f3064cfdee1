use search_aggregator::graph::parse_graph_text;
use search_aggregator::graph::read_graph;
use search_aggregator::graph::ReadGraph;
use search_aggregator::graph_impls::AdjacencyMatrixGraph;
use search_aggregator::graph_impls::ListGraph;

const EMPTY_GRAPH: &str = "0\n0\n";
const ONE_EDGE: &str = "2\n1\n1 2";
const TRIANGLE: &str = "3\n3\n1 2\n2 3\n1 3";

#[test]
pub fn read_empty() {
    read_graph::<petgraph::graph::NodeIndex<usize>, ListGraph>(&EMPTY_GRAPH.to_string())
        .unwrap();
}

#[test]
fn read_one() {
    read_graph::<petgraph::graph::NodeIndex<usize>, ListGraph>(&ONE_EDGE.to_string()).unwrap();
}

#[test]
fn list_graph_impl_read_triangle() {
    let g = read_graph::<petgraph::graph::NodeIndex<usize>, ListGraph>(&TRIANGLE.to_string())
        .unwrap();
    assert_eq!(3, g.node_count());
    assert_eq!(3, g.inner().edge_count());
}

#[test]
pub fn matrix_graph_impl_read_triangle() {
    let g = read_graph::<petgraph::graph::NodeIndex<usize>, AdjacencyMatrixGraph>(
        &TRIANGLE.to_string(),
    )
    .unwrap();
    assert_eq!(3, g.node_count());
    let ix = petgraph::graph::NodeIndex::new;
    assert!(g.has_edge(ix(0), ix(1)));
    assert!(g.has_edge(ix(1), ix(2)));
    assert!(g.has_edge(ix(0), ix(2)));
}

#[test]
fn read_from_str_goes_through_the_trait() {
    let g = ListGraph::read_from_str(&ONE_EDGE.to_string()).unwrap();
    assert_eq!(2, g.node_count());
    assert_eq!(1, g.inner().edge_count());
}

#[test]
fn parse_reports_counts_and_edges() {
    let (n, m, edges) = parse_graph_text(&TRIANGLE.to_string()).unwrap();
    assert_eq!(3, n);
    assert_eq!(3, m);
    assert_eq!(vec![(1, 2), (2, 3), (1, 3)], edges);
}

#[test]
fn parse_ignores_blank_lines_and_plus_signs() {
    let (n, m, edges) = parse_graph_text(&"\n2\n\n1\n+1 2\n".to_string()).unwrap();
    assert_eq!(2, n);
    assert_eq!(1, m);
    assert_eq!(vec![(1, 2)], edges);
}

#[test]
fn parse_rejects_malformed_texts() {
    let err = |text: &str| parse_graph_text(&text.to_string()).unwrap_err();
    assert_eq!("malformed graph text", err(""));
    assert_eq!("malformed graph text", err("1"));
    assert_eq!("invalid digit found in string", err("a\n0\n"));
    assert_eq!("malformed graph text", err("1\n1\n1"));
    assert_eq!("invalid digit found in string", err("1\n1\n1 x"));
    assert_eq!("cannot parse integer from empty string", err("1\n1\n1  2"));
    assert_eq!(
        "number too large to fit in target type",
        err("99999999999999999999999999\n0\n")
    );
}
