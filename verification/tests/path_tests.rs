use graph_challenge::path::{path_from_map, path_from_signed, path_from_vec};
use std::collections::HashMap;

#[test]
fn vec_path_follows_predecessors() {
    let prev = vec![None, Some(0), Some(1), Some(1)];
    assert_eq!(path_from_vec(&prev, 2), Some(vec![0, 1, 2]));
    assert_eq!(path_from_vec(&prev, 3), Some(vec![0, 1, 3]));
    assert_eq!(path_from_vec(&prev, 0), Some(vec![0]));
}

#[test]
fn vec_path_out_of_range_or_cyclic() {
    let prev = vec![None, Some(5)];
    assert_eq!(path_from_vec(&prev, 1), None);
    assert_eq!(path_from_vec(&prev, 7), None);
    let cyclic = vec![Some(1), Some(0)];
    assert_eq!(path_from_vec(&cyclic, 0), None);
}

#[test]
fn map_path_stops_at_marker_or_missing_entry() {
    let mut prev = HashMap::new();
    prev.insert(1, u64::MAX);
    prev.insert(2, 1);
    prev.insert(5, 2);
    assert_eq!(path_from_map(&prev, 5), Some(vec![1, 2, 5]));
    let mut partial = HashMap::new();
    partial.insert(8, 3);
    assert_eq!(path_from_map(&partial, 8), Some(vec![3, 8]));
    assert_eq!(path_from_map(&HashMap::new(), 4), Some(vec![4]));
}

#[test]
fn map_path_cyclic() {
    let mut prev = HashMap::new();
    prev.insert(1, 2);
    prev.insert(2, 1);
    assert_eq!(path_from_map(&prev, 1), None);
}

#[test]
fn signed_path_follows_nonnegative_entries() {
    let prev = vec![-1, 0, 1, 0];
    assert_eq!(path_from_signed(&prev, 2), Some(vec![0, 1, 2]));
    assert_eq!(path_from_signed(&prev, 3), Some(vec![0, 3]));
    assert_eq!(path_from_signed(&vec![-1, 9], 1), None);
}

use graph_challenge::graph::Graph;
use graph_challenge::graph_vec;
use graph_challenge::path::{PredMap, PredTable};

#[test]
fn pred_table_records_only_edges() {
    let mut g = Graph::new();
    g.add_edge(0, 1, 1);
    g.add_edge(1, 2, 1);
    let mut t = PredTable::new(&g, 4);
    assert!(t.record(1, 0));
    assert!(t.record(2, 1));
    assert!(!t.record(2, 0));
    assert!(!t.record(9, 1));
    assert_eq!(t.path_to(2), Some(vec![0, 1, 2]));
    assert_eq!(t.path_to(3), Some(vec![3]));
}

#[test]
fn pred_map_records_only_edges() {
    let mut g = graph_vec::Graph::new();
    g.add_edge(5, 6, 1);
    g.add_edge(6, 7, 1);
    let mut t = PredMap::new(&g, 5);
    assert!(t.record(6, 5));
    assert!(t.record(7, 6));
    assert!(!t.record(7, 5));
    assert!(!t.record(5, u64::MAX));
    assert_eq!(t.path_to(7), Some(vec![5, 6, 7]));
}
