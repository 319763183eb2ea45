use graph_challenge::graph::Graph;
use graph_challenge::random_graph::{RandomGraphBuilder, Step};
use std::collections::{HashSet, VecDeque};

/// A small deterministic stand-in for a random generator.
struct Lcg(u64);

impl Lcg {
    fn next(&mut self) -> u64 {
        self.0 = self.0.wrapping_mul(6364136223846793005).wrapping_add(1442695040888963407);
        self.0 >> 11
    }
}

fn build(n: u64, extra: usize, seed: u64) -> (Graph, usize) {
    let mut rng = Lcg(seed);
    let mut b = RandomGraphBuilder::new(n, extra);
    let mut added = 0;
    loop {
        match b.next_step() {
            Step::TreeEdge { .. } => {
                let p = rng.next();
                let w = 1.0 + (rng.next() % 9) as f64;
                b.add_tree_edge(p, w.to_bits());
            }
            Step::ExtraPair => {
                let f = rng.next();
                let t = rng.next();
                b.propose_extra_edge(f, t);
            }
            Step::ExtraWeight => {
                b.add_extra_edge(2.0f64.to_bits());
                added += 1;
            }
            Step::Done => return (b.finish(), added),
        }
    }
}

fn reachable_from_zero(g: &Graph) -> HashSet<u64> {
    let mut seen = HashSet::new();
    let mut queue = VecDeque::from([0u64]);
    seen.insert(0);
    while let Some(v) = queue.pop_front() {
        for (&t, _) in g.neighbors(v).unwrap() {
            if seen.insert(t) {
                queue.push_back(t);
            }
        }
    }
    seen
}

#[test]
fn random_graph_is_connected() {
    for seed in 0..20 {
        let (g, added) = build(10, 5, seed);
        assert_eq!(g.adjacency.len(), 10);
        let edge_count: usize = g.adjacency.values().map(|n| n.len()).sum();
        assert!(edge_count >= 14);
        assert_eq!(edge_count, 9 + added);
        assert_eq!(added, 5);
        assert_eq!(reachable_from_zero(&g).len(), 10);
    }
}

#[test]
fn tree_edges_point_to_larger_vertices() {
    let (g, _) = build(30, 0, 7);
    for v in 1..30u64 {
        assert!((0..v).any(|p| g.get_edge_weight(p, v).is_some()));
    }
}

#[test]
fn builder_steps_in_order() {
    let mut b = RandomGraphBuilder::new(3, 1);
    assert_eq!(b.next_step(), Step::TreeEdge { vertex: 1 });
    b.add_tree_edge(5, 1);
    assert_eq!(b.next_step(), Step::TreeEdge { vertex: 2 });
    b.add_tree_edge(3, 1);
    assert_eq!(b.next_step(), Step::ExtraPair);
    // 1 -> 1 is a loop: rejected and counted.
    assert!(!b.propose_extra_edge(1, 4));
    // 0 -> 1 exists already: rejected.
    assert!(!b.propose_extra_edge(3, 1));
    // 2 -> 0 is new.
    assert!(b.propose_extra_edge(2, 0));
    assert_eq!(b.next_step(), Step::ExtraWeight);
    b.add_extra_edge(9);
    assert_eq!(b.next_step(), Step::Done);
    let g = b.finish();
    assert_eq!(g.get_edge_weight(0, 1), Some(1));
    assert_eq!(g.get_edge_weight(1, 2), Some(1));
    assert_eq!(g.get_edge_weight(2, 0), Some(9));
}

#[test]
fn rejected_pairs_do_not_end_the_construction() {
    // Two vertices, one further edge wanted: proposing the tree edge 0 -> 1 again
    // and again is rejected each time, and the construction keeps asking.
    let mut b = RandomGraphBuilder::new(2, 1);
    b.add_tree_edge(0, 1);
    for _ in 0..50 {
        assert_eq!(b.next_step(), Step::ExtraPair);
        assert!(!b.propose_extra_edge(0, 1));
        assert!(!b.propose_extra_edge(1, 1));
    }
    assert!(b.propose_extra_edge(1, 0));
    b.add_extra_edge(3);
    assert_eq!(b.next_step(), Step::Done);
    let g = b.finish();
    assert_eq!(g.get_edge_weight(1, 0), Some(3));
    assert_eq!(g.adjacency.values().map(|n| n.len()).sum::<usize>(), 2);
}

#[test]
fn stops_when_no_edge_is_left_to_add() {
    // Two vertices have room for one edge besides the tree edge.
    let mut b = RandomGraphBuilder::new(2, 5);
    b.add_tree_edge(0, 1);
    assert!(b.propose_extra_edge(1, 0));
    b.add_extra_edge(3);
    assert_eq!(b.next_step(), Step::Done);
    assert_eq!(b.finish().adjacency.values().map(|n| n.len()).sum::<usize>(), 2);
}

#[test]
fn empty_and_single_vertex_graphs() {
    let b = RandomGraphBuilder::new(0, 0);
    assert_eq!(b.next_step(), Step::Done);
    assert!(b.finish().adjacency.is_empty());
    let b = RandomGraphBuilder::new(1, 0);
    assert_eq!(b.next_step(), Step::Done);
    assert_eq!(b.finish().adjacency.len(), 1);
}

#[test]
fn same_draws_give_the_same_graph() {
    for seed in 0..10 {
        let (a, added_a) = build(12, 8, seed);
        let (b, added_b) = build(12, 8, seed);
        assert_eq!(added_a, added_b);
        assert_eq!(a.adjacency, b.adjacency);
    }
    let (c, _) = build(12, 8, 1);
    let (d, _) = build(12, 8, 2);
    assert_ne!(c.adjacency, d.adjacency);
}
