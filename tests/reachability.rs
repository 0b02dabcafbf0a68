use biodivine_std::algorithms::GraphAlgorithms;
use biodivine_std::graph::{EvolutionOperator, InverseEvolutionOperator, VertexCursor};
use biodivine_std::set::BasicSet;
use biodivine_std::simple::{HashVertexSet, SimpleGraph, SimpleGraphAlgorithms, VertexList};

fn name(s: &str) -> String {
    s.to_string()
}

fn drain(mut cursor: VertexList) -> Vec<String> {
    let mut out = Vec::new();
    while let Some(v) = cursor.next() {
        out.push(v);
    }
    out
}

fn chain_graph() -> SimpleGraph {
    let mut graph = SimpleGraph::new();
    graph.add_vertex(name("A"));
    graph.add_vertex(name("B"));
    graph.add_vertex(name("C"));
    graph.add_edge(name("A"), name("B"));
    graph.add_edge(name("B"), name("C"));
    graph.add_edge(name("C"), name("C"));
    graph
}

#[test]
fn it_works() {
    let graph = chain_graph();

    let reach_from_a = SimpleGraphAlgorithms::reachable_states(&graph, &"A".to_string());
    let reach_from_b = SimpleGraphAlgorithms::reachable_states(&graph, &"B".to_string());
    let reach_from_c = SimpleGraphAlgorithms::reachable_states(&graph, &"C".to_string());

    assert!(reach_from_a.contains(&"A".to_string()));
    assert!(reach_from_a.contains(&"B".to_string()));
    assert!(reach_from_a.contains(&"C".to_string()));

    assert!(!reach_from_b.contains(&"A".to_string()));
    assert!(reach_from_b.contains(&"B".to_string()));
    assert!(reach_from_b.contains(&"C".to_string()));

    assert!(!reach_from_c.contains(&"A".to_string()));
    assert!(!reach_from_c.contains(&"B".to_string()));
    assert!(reach_from_c.contains(&"C".to_string()));
}

#[test]
fn isolated_vertex_reaches_only_itself() {
    let mut graph = SimpleGraph::new();
    graph.add_vertex(name("X"));
    let reach = SimpleGraphAlgorithms::reachable_states(&graph, &name("X"));
    assert!(reach.contains(&name("X")));
    assert!(!reach.is_empty());
    assert!(!reach.contains(&name("Y")));
}

#[test]
fn unknown_vertex_reaches_only_itself() {
    let graph = chain_graph();
    let reach = SimpleGraphAlgorithms::reachable_states(&graph, &name("Z"));
    assert!(reach.contains(&name("Z")));
    assert!(!reach.contains(&name("A")));
    assert!(!reach.contains(&name("B")));
    assert!(!reach.contains(&name("C")));
}

#[test]
fn cycle_is_explored_once_and_terminates() {
    let mut graph = SimpleGraph::new();
    graph.add_edge(name("P"), name("Q"));
    graph.add_edge(name("Q"), name("R"));
    graph.add_edge(name("R"), name("P"));
    graph.add_edge(name("R"), name("R"));
    graph.add_edge(name("S"), name("P"));
    let reach = SimpleGraphAlgorithms::reachable_states(&graph, &name("Q"));
    assert!(reach.contains(&name("P")));
    assert!(reach.contains(&name("Q")));
    assert!(reach.contains(&name("R")));
    assert!(!reach.contains(&name("S")));
    // every reached vertex is already a member: nothing new is added
    let mut reach = reach;
    assert!(!reach.insert(name("P")));
    assert!(!reach.insert(name("Q")));
    assert!(!reach.insert(name("R")));
}

#[test]
fn result_is_closed_under_successors() {
    let mut graph = SimpleGraph::new();
    graph.add_edge(name("a"), name("b"));
    graph.add_edge(name("a"), name("c"));
    graph.add_edge(name("b"), name("d"));
    graph.add_edge(name("c"), name("d"));
    graph.add_edge(name("d"), name("e"));
    graph.add_edge(name("f"), name("a"));
    let reach = SimpleGraphAlgorithms::reachable_states(&graph, &name("a"));
    for v in ["a", "b", "c", "d", "e"] {
        assert!(reach.contains(&name(v)));
        for w in drain(graph.next_step(&name(v))) {
            assert!(reach.contains(&w));
        }
    }
    assert!(!reach.contains(&name("f")));
}

#[test]
fn insert_twice_into_vertex_set() {
    let mut set = HashVertexSet::new();
    assert!(set.is_empty());
    assert!(set.insert(name("A")));
    assert!(!set.is_empty());
    assert!(set.contains(&name("A")));
    assert!(!set.contains(&name("B")));
    assert!(!set.insert(name("A")));
    assert!(set.contains(&name("A")));
    assert!(!set.contains(&name("B")));
}

#[test]
fn new_vertex_set_is_empty() {
    let graph = chain_graph();
    let set = SimpleGraphAlgorithms::new_vertex_set(&graph);
    assert!(set.is_empty());
    assert!(!set.contains(&name("A")));
}

#[test]
fn next_step_yields_successors_in_order() {
    let mut graph = SimpleGraph::new();
    graph.add_edge(name("A"), name("B"));
    graph.add_edge(name("A"), name("C"));
    graph.add_edge(name("A"), name("B"));
    assert_eq!(drain(graph.next_step(&name("A"))), vec![name("B"), name("C"), name("B")]);
    assert_eq!(drain(graph.next_step(&name("B"))), Vec::<String>::new());
    assert_eq!(drain(graph.next_step(&name("Q"))), Vec::<String>::new());
}

#[test]
fn prev_step_yields_predecessors_in_order() {
    let graph = chain_graph();
    assert_eq!(drain(graph.prev_step(&name("C"))), vec![name("B"), name("C")]);
    assert_eq!(drain(graph.prev_step(&name("B"))), vec![name("A")]);
    assert_eq!(drain(graph.prev_step(&name("A"))), Vec::<String>::new());
}

#[test]
fn exhausted_cursor_stays_exhausted() {
    let mut cursor = VertexList::new(&vec![name("x"), name("y")]);
    assert_eq!(cursor.next(), Some(name("x")));
    assert_eq!(cursor.next(), Some(name("y")));
    assert_eq!(cursor.next(), None);
    assert_eq!(cursor.next(), None);
}

#[test]
fn graph_records_its_vertices() {
    let mut graph = SimpleGraph::new();
    assert!(!graph.has_vertex("A"));
    graph.add_vertex(name("A"));
    graph.add_edge(name("B"), name("C"));
    assert!(graph.has_vertex("A"));
    assert!(graph.has_vertex("B"));
    assert!(graph.has_vertex("C"));
    assert!(!graph.has_vertex("D"));
}
