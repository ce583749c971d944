use hypergraphs::hypergraph::Hypergraph;

#[test]
fn initial_is_one_vertex_in_one_edge() {
    let graph = Hypergraph::initial();
    assert_eq!(graph.vertices, 1);
    assert_eq!(graph.edges, vec![vec![0]]);
    assert_eq!(graph.degree, vec![1]);
}

#[test]
fn add_vertex_returns_the_next_index() {
    let mut graph = Hypergraph::initial();
    assert_eq!(graph.add_vertex(), 1);
    assert_eq!(graph.add_vertex(), 2);
    assert_eq!(graph.vertices, 3);
    assert_eq!(graph.degree, vec![1, 0, 0]);
    assert_eq!(graph.edges, vec![vec![0]]);
}

#[test]
fn add_edge_counts_every_occurrence() {
    let mut graph = Hypergraph::initial();
    graph.add_vertex();
    graph.add_vertex();
    graph.add_edge(vec![0, 2, 0]);
    assert_eq!(graph.degree, vec![3, 0, 1]);
    graph.add_edge(vec![1]);
    graph.add_edge(vec![]);
    assert_eq!(graph.degree, vec![3, 1, 1]);
    assert_eq!(graph.edges, vec![vec![0], vec![0, 2, 0], vec![1], vec![]]);
    assert_eq!(graph.vertices, 3);
    let sizes: usize = graph.edges.iter().map(|e| e.len()).sum();
    let degrees: u32 = graph.degree.iter().sum();
    assert_eq!(degrees as usize, sizes);
}

#[test]
fn degree_distribution_counts_vertices_by_degree() {
    let mut graph = Hypergraph::initial();
    for _ in 0..4 {
        graph.add_vertex();
    }
    graph.add_edge(vec![1, 2, 2]);
    graph.add_edge(vec![3, 2]);
    // Degrees: 1, 1, 3, 1, 0.
    let counts = graph.degree_distribution();
    assert_eq!(counts.len(), 3);
    assert_eq!(counts.get(&1), Some(&3));
    assert_eq!(counts.get(&3), Some(&1));
    assert_eq!(counts.get(&0), Some(&1));
    assert_eq!(counts.get(&2), None);
    let share = counts[&1] as f32 / graph.vertices as f32;
    assert_eq!(share, 0.6);
}

#[test]
fn degree_distribution_of_the_initial_hypergraph() {
    let counts = Hypergraph::initial().degree_distribution();
    assert_eq!(counts.len(), 1);
    assert_eq!(counts.get(&1), Some(&1));
}
