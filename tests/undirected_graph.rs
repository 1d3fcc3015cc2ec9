use istos::{Graph, UndirectedGraph};

#[test]
fn undirected_graph_test_add_vertex() {
    let mut graph: UndirectedGraph<usize> = UndirectedGraph::new();
    let v1 = graph.add_vertex(1);
    let v2 = graph.add_vertex(2);

    assert_eq!(graph.vertex_count(), 2);
    assert_eq!(graph.get_vertex_data(v1), Some(1));
    assert_eq!(graph.get_vertex_data(v2), Some(2));
}

#[test]
fn undirected_graph_test_remove_vertex() {
    let mut graph: UndirectedGraph<usize> = UndirectedGraph::new();
    let v1 = graph.add_vertex(1);
    let v2 = graph.add_vertex(2);
    let v3 = graph.add_vertex(3);

    graph.add_edge(v1, v2);
    graph.add_edge(v2, v3);

    graph.remove_vertex(v2);

    assert_eq!(graph.vertex_count(), 2);
    assert_eq!(graph.get_vertex_data(v1), Some(1));
    assert_eq!(graph.get_vertex_data(v2), None);
    assert_eq!(graph.get_vertex_data(v3), Some(3));
    assert_eq!(graph.is_adjacent(v1, v2), false);
    assert_eq!(graph.is_adjacent(v2, v3), false);
}

#[test]
fn undirected_graph_test_add_edge() {
    let mut graph: UndirectedGraph<usize> = UndirectedGraph::new();
    let v1 = graph.add_vertex(1);
    let v2 = graph.add_vertex(2);

    graph.add_edge(v1, v2);

    assert_eq!(graph.is_adjacent(v1, v2), true);
    assert_eq!(graph.is_adjacent(v2, v1), true);
}

#[test]
fn undirected_graph_test_remove_edge() {
    let mut graph: UndirectedGraph<usize> = UndirectedGraph::new();
    let v1 = graph.add_vertex(1);
    let v2 = graph.add_vertex(2);
    let v3 = graph.add_vertex(3);

    graph.add_edge(v1, v2);
    graph.add_edge(v2, v3);

    graph.remove_edge(v1, v2);

    assert_eq!(graph.is_adjacent(v1, v2), false);
    assert_eq!(graph.is_adjacent(v2, v1), false);
    assert_eq!(graph.is_adjacent(v2, v3), true);
}

#[test]
fn undirected_graph_test_get_vertex_data() {
    let mut graph: UndirectedGraph<usize> = UndirectedGraph::new();
    let v1 = graph.add_vertex(1);
    let v2 = graph.add_vertex(2);

    assert_eq!(graph.get_vertex_data(v1), Some(1));
    assert_eq!(graph.get_vertex_data(v2), Some(2));
    assert_eq!(graph.get_vertex_data(999), None);
}

#[test]
fn undirected_graph_test_set_vertex_data() {
    let mut graph: UndirectedGraph<usize> = UndirectedGraph::new();
    let v1 = graph.add_vertex(1);
    let v2 = graph.add_vertex(2);

    graph.set_vertex_data(v1, 3);

    assert_eq!(graph.get_vertex_data(v1), Some(3));
    assert_eq!(graph.get_vertex_data(v2), Some(2));
}

#[test]
fn undirected_graph_test_is_adjacent() {
    let mut graph: UndirectedGraph<()> = UndirectedGraph::new();
    let v1 = graph.add_vertex(());
    let v2 = graph.add_vertex(());
    let v3 = graph.add_vertex(());

    assert!(!graph.is_adjacent(v1, v2));
    assert!(!graph.is_adjacent(v2, v1));
    assert!(!graph.is_adjacent(v1, v3));
    assert!(!graph.is_adjacent(v3, v1));
    assert!(!graph.is_adjacent(v2, v3));
    assert!(!graph.is_adjacent(v3, v2));

    graph.add_edge(v1, v2);

    assert!(graph.is_adjacent(v1, v2));
    assert!(graph.is_adjacent(v2, v1));
    assert!(!graph.is_adjacent(v1, v3));
    assert!(!graph.is_adjacent(v3, v1));
    assert!(!graph.is_adjacent(v2, v3));
    assert!(!graph.is_adjacent(v3, v2));

    graph.add_edge(v2, v3);

    assert!(graph.is_adjacent(v1, v2));
    assert!(graph.is_adjacent(v2, v1));
    assert!(!graph.is_adjacent(v1, v3));
    assert!(!graph.is_adjacent(v3, v1));
    assert!(graph.is_adjacent(v2, v3));
    assert!(graph.is_adjacent(v3, v2));
}

#[test]
fn undirected_graph_test_get_neighbors() {
    let mut graph: UndirectedGraph<()> = UndirectedGraph::new();
    let v1 = graph.add_vertex(());
    let v2 = graph.add_vertex(());
    let v3 = graph.add_vertex(());

    assert_eq!(graph.get_neighbors(v1), vec![]);
    assert_eq!(graph.get_neighbors(v2), vec![]);
    assert_eq!(graph.get_neighbors(v3), vec![]);

    graph.add_edge(v1, v2);

    assert_eq!(graph.get_neighbors(v1), vec![v2]);
    assert_eq!(graph.get_neighbors(v2), vec![v1]);
    assert_eq!(graph.get_neighbors(v3), vec![]);

    graph.add_edge(v2, v3);

    assert_eq!(graph.get_neighbors(v1), vec![v2]);
    assert_eq!(graph.get_neighbors(v2), vec![v1, v3]);
    assert_eq!(graph.get_neighbors(v3), vec![v2]);
}
