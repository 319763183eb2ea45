//! The shared state of a multi-threaded shortest-path search over a [`Graph`]:
//! one lock, one best-known cost and one predecessor per vertex id.
//!
//! Costs are held as the bit patterns of IEEE-754 doubles; a predecessor of `-1`
//! means that none is known.

use std::sync::atomic::{AtomicBool, AtomicI64, AtomicU64, Ordering};
use vstd::prelude::*;

use super::Graph;

verus! {

broadcast use vstd::std_specs::hash::group_hash_axioms;

/// The bit pattern of positive infinity, the cost of a vertex not reached yet.
pub const UNREACHED_COST: u64 = 0x7FF0_0000_0000_0000;

/// The bit pattern of `0.0`, the cost of the start vertex.
pub const ZERO_COST: u64 = 0;

/// The slot of a vertex id in the per-vertex arrays.
fn slot(position: u64) -> (i: usize)
    requires
        position <= usize::MAX,
    ensures
        i == position,
{
    position as usize
}

/// The shared state of one search.
pub struct Search<'graph> {
    pub graph: &'graph Graph,
    pub waiters: AtomicU64,
    pub start: u64,
    pub end: u64,
    pub locks: Vec<AtomicBool>,
    pub costs: Vec<AtomicU64>,
    pub prev: Vec<AtomicI64>,
}

/// The per-vertex cells of one vertex of a [`Search`].
pub struct Node<'search> {
    pub lock: &'search AtomicBool,
    pub cost: &'search AtomicU64,
    pub prev: &'search AtomicI64,
}

impl<'search> Node<'search> {
    /// The cells of vertex `position` in `search`.
    pub fn new(search: &'search Search, position: u64) -> (n: Self)
        requires
            position < search.locks.len(),
            position < search.costs.len(),
            position < search.prev.len(),
        ensures
            *n.lock == search.locks@[position as int],
            *n.cost == search.costs@[position as int],
            *n.prev == search.prev@[position as int],
    {
        let p = slot(position);
        Node { lock: &search.locks[p], cost: &search.costs[p], prev: &search.prev[p] }
    }
}

impl<'ctx> Search<'ctx> {
    /// The number of per-vertex cells of a search over `graph`: one more than
    /// the number of vertices, so that vertex ids `0..=n` have a cell.
    pub open spec fn cells(graph: &Graph) -> nat {
        graph.adjacency@.len() + 1
    }

    /// A fresh search from `start` to `end` over `graph`: every vertex unlocked,
    /// unreached and without predecessor, except that `start` has cost zero.
    pub fn new(graph: &'ctx Graph, start: u64, end: u64) -> (s: Self)
        requires
            Self::cells(graph) <= usize::MAX,
            start < Self::cells(graph),
        ensures
            s.graph == graph,
            s.start == start,
            s.end == end,
            s.locks.len() == Self::cells(graph),
            s.costs.len() == Self::cells(graph),
            s.prev.len() == Self::cells(graph),
    {
        let size = graph.adjacency.len() + 1;
        let mut locks: Vec<AtomicBool> = Vec::new();
        let mut costs: Vec<AtomicU64> = Vec::new();
        let mut prev: Vec<AtomicI64> = Vec::new();
        for _i in 0..size
            invariant
                locks.len() == _i,
                costs.len() == _i,
                prev.len() == _i,
        {
            locks.push(AtomicBool::new(false));
            costs.push(AtomicU64::new(UNREACHED_COST));
            prev.push(AtomicI64::new(-1));
        }
        let s = slot(start);
        costs[s].store(ZERO_COST, Ordering::Relaxed);
        Search { graph, waiters: AtomicU64::new(0), start, end, locks, costs, prev }
    }
}

} // verus!
