use graph_challenge::graph_vec::{search_target, Graph};

fn w(x: f64) -> u64 {
    x.to_bits()
}

#[test]
fn rows_stay_sorted_by_target() {
    let mut g = Graph::new();
    g.add_edge(1, 5, w(1.0));
    g.add_edge(1, 2, w(2.0));
    g.add_edge(1, 9, w(3.0));
    g.add_edge(1, 4, w(4.0));
    let row = g.neighbors(1).unwrap();
    let targets: Vec<u64> = row.iter().map(|e| e.0).collect();
    assert_eq!(targets, vec![2, 4, 5, 9]);
}

#[test]
fn add_edge_replaces_in_place() {
    let mut g = Graph::new();
    g.add_edge(1, 2, w(5.0));
    g.add_edge(1, 3, w(6.0));
    g.add_edge(1, 2, w(7.0));
    assert_eq!(g.neighbors(1).unwrap(), &vec![(2, w(7.0)), (3, w(6.0))]);
    assert_eq!(g.get_edge_weight(1, 2).map(f64::from_bits), Some(7.0));
}

#[test]
fn remove_edge_and_vertex() {
    let mut g = Graph::new();
    g.add_edge(1, 2, w(1.0));
    g.add_edge(3, 2, w(2.0));
    g.add_edge(2, 3, w(3.0));
    g.remove_edge(1, 2);
    assert_eq!(g.get_edge_weight(1, 2), None);
    assert_eq!(g.get_edge_weight(3, 2), Some(w(2.0)));
    g.remove_vertex(2);
    assert!(g.neighbors(2).is_none());
    assert_eq!(g.get_edge_weight(3, 2), None);
    assert!(g.neighbors(3).unwrap().is_empty());
    assert!(g.neighbors(1).unwrap().is_empty());
}

#[test]
fn unweighted_edge_and_missing_vertex() {
    let mut g = Graph::default();
    g.add_unweighted_edge(4, 1);
    assert_eq!(g.get_edge_weight(4, 1).map(f64::from_bits), Some(1.0));
    assert_eq!(g.get_edge_weight(5, 1), None);
    assert!(g.neighbors(5).is_none());
    g.add_vertex(4);
    assert_eq!(g.neighbors(4).unwrap().len(), 1);
}

#[test]
fn binary_search_of_a_row() {
    let row = vec![(1, 0), (4, 0), (7, 0)];
    assert_eq!(search_target(&row, 4), Ok(1));
    assert_eq!(search_target(&row, 0), Err(0));
    assert_eq!(search_target(&row, 5), Err(2));
    assert_eq!(search_target(&row, 9), Err(3));
    assert_eq!(search_target(&Vec::new(), 9), Err(0));
}
