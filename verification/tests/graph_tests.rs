use graph_challenge::graph::{Graph, UNIT_WEIGHT};

fn w(x: f64) -> u64 {
    x.to_bits()
}

#[test]
fn test_add_and_remove_vertex() {
    let mut g = Graph::new();
    g.add_vertex(1);
    assert!(g.adjacency.contains_key(&1));
    g.remove_vertex(1);
    assert!(!g.adjacency.contains_key(&1));
}

#[test]
fn test_add_and_remove_edge() {
    let mut g = Graph::new();
    g.add_edge(1, 2, w(5.0));
    assert_eq!(g.get_edge_weight(1, 2).map(f64::from_bits), Some(5.0));
    g.remove_edge(1, 2);
    assert_eq!(g.get_edge_weight(1, 2), None);
}

#[test]
fn test_neighbors() {
    let mut g = Graph::new();
    g.add_edge(1, 2, w(3.0));
    g.add_edge(1, 3, w(7.0));
    let neighbors = g.neighbors(1).unwrap();
    assert_eq!(neighbors.get(&2).map(|b| f64::from_bits(*b)), Some(3.0));
    assert_eq!(neighbors.get(&3).map(|b| f64::from_bits(*b)), Some(7.0));
}

#[test]
fn test_unweighted_edge() {
    let mut g = Graph::new();
    g.add_unweighted_edge(1, 2);
    assert_eq!(g.get_edge_weight(1, 2).map(f64::from_bits), Some(1.0));
}

#[test]
fn unit_weight_is_one() {
    assert_eq!(f64::from_bits(UNIT_WEIGHT), 1.0);
}

#[test]
fn add_edge_adds_both_endpoints() {
    let mut g = Graph::new();
    g.add_edge(4, 9, w(2.5));
    assert!(g.adjacency.contains_key(&4));
    assert!(g.adjacency.contains_key(&9));
    assert_eq!(g.adjacency.len(), 2);
    assert!(g.neighbors(9).unwrap().is_empty());
}

#[test]
fn add_edge_replaces_weight() {
    let mut g = Graph::new();
    g.add_edge(1, 2, w(5.0));
    g.add_edge(1, 2, w(8.0));
    assert_eq!(g.get_edge_weight(1, 2), Some(w(8.0)));
    assert_eq!(g.neighbors(1).unwrap().len(), 1);
}

#[test]
fn add_vertex_keeps_existing_edges() {
    let mut g = Graph::new();
    g.add_edge(1, 2, w(5.0));
    g.add_vertex(1);
    assert_eq!(g.get_edge_weight(1, 2), Some(w(5.0)));
}

#[test]
fn remove_vertex_removes_incoming_edges() {
    let mut g = Graph::new();
    g.add_edge(1, 2, w(1.0));
    g.add_edge(3, 2, w(2.0));
    g.add_edge(1, 3, w(3.0));
    g.remove_vertex(2);
    assert!(g.neighbors(2).is_none());
    assert_eq!(g.get_edge_weight(1, 2), None);
    assert_eq!(g.get_edge_weight(3, 2), None);
    assert_eq!(g.get_edge_weight(1, 3), Some(w(3.0)));
}

#[test]
fn remove_missing_edge_is_harmless() {
    let mut g = Graph::new();
    g.add_edge(1, 2, w(1.0));
    g.remove_edge(2, 1);
    g.remove_edge(7, 8);
    assert_eq!(g.get_edge_weight(1, 2), Some(w(1.0)));
    assert_eq!(g.adjacency.len(), 2);
}

#[test]
fn missing_vertex_has_no_neighbors() {
    let g = Graph::default();
    assert!(g.neighbors(1).is_none());
    assert_eq!(g.get_edge_weight(1, 2), None);
}
