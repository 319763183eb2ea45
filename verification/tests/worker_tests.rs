use graph_challenge::graph::worker::{Node, Search, UNREACHED_COST, ZERO_COST};
use graph_challenge::graph::Graph;
use std::sync::atomic::Ordering;

#[test]
fn fresh_search_cells() {
    let mut g = Graph::new();
    g.add_edge(0, 1, 1.0f64.to_bits());
    g.add_edge(1, 2, 2.0f64.to_bits());
    let s = Search::new(&g, 1, 2);
    assert_eq!(s.locks.len(), 4);
    assert_eq!(s.costs.len(), 4);
    assert_eq!(s.prev.len(), 4);
    assert_eq!(s.start, 1);
    assert_eq!(s.end, 2);
    assert_eq!(s.waiters.load(Ordering::Relaxed), 0);
    for i in 0..4 {
        assert!(!s.locks[i].load(Ordering::Relaxed));
        assert_eq!(s.prev[i].load(Ordering::Relaxed), -1);
        let expected = if i == 1 { ZERO_COST } else { UNREACHED_COST };
        assert_eq!(s.costs[i].load(Ordering::Relaxed), expected);
    }
    assert_eq!(f64::from_bits(UNREACHED_COST), f64::INFINITY);
    assert_eq!(f64::from_bits(ZERO_COST), 0.0);
}

#[test]
fn node_cells_are_those_of_its_vertex() {
    let mut g = Graph::new();
    g.add_vertex(0);
    g.add_vertex(1);
    let s = Search::new(&g, 0, 1);
    let n = Node::new(&s, 2);
    n.prev.store(7, Ordering::Relaxed);
    assert_eq!(s.prev[2].load(Ordering::Relaxed), 7);
    assert!(std::ptr::eq(n.lock, &s.locks[2]));
    assert!(std::ptr::eq(n.cost, &s.costs[2]));
}
