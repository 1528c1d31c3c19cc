use arena_graph::{Graph, GraphError, NodeIndex};

#[test]
fn example() {
    // N0 ---E0---> N1 ---E1---> 2
    // |                         ^
    // E2                        |
    // |                         |
    // v                         |
    // N3 ----------E3-----------+

    let mut graph = Graph::new();

    let n0 = graph.add_node();
    let n1 = graph.add_node();
    let n2 = graph.add_node();
    let n3 = graph.add_node();

    graph.add_edge(n0, n1).unwrap(); // e0
    graph.add_edge(n1, n2).unwrap(); // e1
    graph.add_edge(n0, n3).unwrap(); // e2
    graph.add_edge(n3, n2).unwrap(); // e3

    let successors: Vec<NodeIndex> = graph.successors(n0).unwrap().collect();
    assert_eq!(&successors[..], &[n3, n1]);
}

#[test]
fn example_other_nodes() {
    let mut graph = Graph::new();
    let n0 = graph.add_node();
    let n1 = graph.add_node();
    let n2 = graph.add_node();
    let n3 = graph.add_node();
    graph.add_edge(n0, n1).unwrap();
    graph.add_edge(n1, n2).unwrap();
    graph.add_edge(n0, n3).unwrap();
    graph.add_edge(n3, n2).unwrap();
    assert_eq!(graph.successors(n1).unwrap().collect(), vec![n2]);
    assert_eq!(graph.successors(n3).unwrap().collect(), vec![n2]);
    assert_eq!(graph.successors(n2).unwrap().collect(), Vec::<NodeIndex>::new());
}

#[test]
fn node_indices_are_dense() {
    let mut graph = Graph::new();
    for i in 0..10usize {
        assert_eq!(graph.add_node(), i);
    }
}

#[test]
fn edge_indices_are_dense() {
    let mut graph = Graph::new();
    let a = graph.add_node();
    let b = graph.add_node();
    assert_eq!(graph.add_edge(a, b), Ok(0));
    assert_eq!(graph.add_edge(b, a), Ok(1));
    assert_eq!(graph.add_edge(a, a), Ok(2));
    assert_eq!(graph.add_edge(a, b), Ok(3));
}

#[test]
fn successors_in_reverse_insertion_order() {
    let mut graph = Graph::new();
    let s = graph.add_node();
    for _ in 0..5 {
        graph.add_node();
    }
    for t in [3usize, 1, 5, 2, 4] {
        graph.add_edge(s, t).unwrap();
    }
    assert_eq!(graph.successors(s).unwrap().collect(), vec![4, 2, 5, 1, 3]);
}

#[test]
fn fresh_node_has_no_successors() {
    let mut graph = Graph::new();
    let a = graph.add_node();
    let b = graph.add_node();
    graph.add_edge(a, b).unwrap();
    let c = graph.add_node();
    let mut it = graph.successors(c).unwrap();
    assert_eq!(it.next(), None);
    assert_eq!(graph.successors(b).unwrap().collect(), Vec::<NodeIndex>::new());
}

#[test]
fn edges_from_one_node_leave_others_alone() {
    let mut graph = Graph::new();
    let a = graph.add_node();
    let b = graph.add_node();
    graph.add_edge(b, a).unwrap();
    let before = graph.successors(b).unwrap().collect();
    for _ in 0..4 {
        graph.add_edge(a, b).unwrap();
    }
    assert_eq!(graph.successors(b).unwrap().collect(), before);
    assert_eq!(graph.successors(a).unwrap().collect(), vec![b, b, b, b]);
}

#[test]
fn invalid_source_is_rejected() {
    let mut graph = Graph::new();
    assert_eq!(graph.add_edge(0, 0), Err(GraphError::InvalidIndex));
    assert!(matches!(graph.successors(0), Err(GraphError::InvalidIndex)));
    let a = graph.add_node();
    assert_eq!(graph.add_edge(1, a), Err(GraphError::InvalidIndex));
    assert!(matches!(graph.successors(1), Err(GraphError::InvalidIndex)));
    // the rejected insertion left nothing behind
    assert_eq!(graph.successors(a).unwrap().collect(), Vec::<NodeIndex>::new());
    assert_eq!(graph.add_edge(a, a), Ok(0));
}

#[test]
fn target_is_not_checked() {
    let mut graph = Graph::new();
    let a = graph.add_node();
    assert_eq!(graph.add_edge(a, 7), Ok(0));
    let b = graph.add_node();
    assert_eq!(graph.add_edge(a, b), Ok(1));
    assert_eq!(graph.successors(a).unwrap().collect(), vec![b, 7]);
}

#[test]
fn cursor_stays_exhausted() {
    let mut graph = Graph::new();
    let a = graph.add_node();
    graph.add_edge(a, a).unwrap();
    let mut it = graph.successors(a).unwrap();
    assert_eq!(it.next(), Some(a));
    assert_eq!(it.next(), None);
    assert_eq!(it.next(), None);
}

#[test]
fn cursor_does_not_see_later_edges() {
    let mut graph = Graph::new();
    let a = graph.add_node();
    graph.add_edge(a, a).unwrap();
    let first = graph.successors(a).unwrap().collect();
    graph.add_edge(a, 5).unwrap();
    assert_eq!(first, vec![a]);
    assert_eq!(graph.successors(a).unwrap().collect(), vec![5, a]);
}
