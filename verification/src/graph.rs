//! A directed weighted graph kept as a map from each vertex to the map of its
//! out-edges (target vertex to weight).
//!
//! Weights are carried as the 64-bit pattern of an IEEE-754 double: the graph
//! only stores, replaces and hands back weights, and never computes with them.

pub mod worker;

use std::collections::HashMap;
use vstd::prelude::*;
use vstd::std_specs::hash::spec_keys_iter;
use vstd::std_specs::iter::IteratorSpec;

verus! {

broadcast use vstd::std_specs::hash::group_hash_axioms;

/// The bit pattern of the double `1.0`, the weight of an unweighted edge.
pub const UNIT_WEIGHT: u64 = 0x3FF0_0000_0000_0000;

/// A graph as a map of maps: the outer map takes each vertex to its out-edges,
/// which map a target vertex to the weight of the edge.
pub type EdgeMap = Map<u64, Map<u64, u64>>;

/// The abstract graph behind a map of hash maps.
pub open spec fn nested_view(m: Map<u64, HashMap<u64, u64>>) -> EdgeMap {
    Map::new(|v: u64| m.contains_key(v), |v: u64| m[v]@)
}

/// `g` with vertex `v` (no change when `v` is already a vertex).
pub open spec fn with_vertex(g: EdgeMap, v: u64) -> EdgeMap {
    if g.contains_key(v) {
        g
    } else {
        g.insert(v, Map::empty())
    }
}

/// `g` with both endpoints as vertices and the edge `from -> to` of weight `w`
/// (which replaces an earlier weight of that edge).
pub open spec fn with_edge(g: EdgeMap, from: u64, to: u64, w: u64) -> EdgeMap {
    let g1 = with_vertex(with_vertex(g, from), to);
    g1.insert(from, g1[from].insert(to, w))
}

/// `g` without vertex `v` and without every edge that ends at `v`.
pub open spec fn without_vertex(g: EdgeMap, v: u64) -> EdgeMap {
    Map::new(|u: u64| g.contains_key(u) && u != v, |u: u64| g[u].remove(v))
}

/// `g` without the edge `from -> to` (no change when there is none).
pub open spec fn without_edge(g: EdgeMap, from: u64, to: u64) -> EdgeMap {
    if g.contains_key(from) {
        g.insert(from, g[from].remove(to))
    } else {
        g
    }
}

/// The weight of the edge `from -> to`, if there is one.
pub open spec fn edge_weight(g: EdgeMap, from: u64, to: u64) -> Option<u64> {
    if g.contains_key(from) && g[from].contains_key(to) {
        Some(g[from][to])
    } else {
        None
    }
}

/// There is an edge from `a` to `b`.
pub open spec fn has_edge(g: EdgeMap, a: u64, b: u64) -> bool {
    edge_weight(g, a, b) is Some
}

/// `path` leads from its first vertex to its last along edges of `g`.
pub open spec fn is_walk(g: EdgeMap, path: Seq<u64>) -> bool {
    &&& path.len() > 0
    &&& forall|i: int| 0 <= i < path.len() - 1 ==> #[trigger] has_edge(g, path[i], path[i + 1])
}

/// `b` can be reached from `a` along edges of `g`.
pub open spec fn reaches(g: EdgeMap, a: u64, b: u64) -> bool {
    exists|path: Seq<u64>| is_walk(g, path) && path[0] == a && #[trigger] path.last() == b
}

/// Every edge ends at a vertex of the graph.
pub open spec fn closed(g: EdgeMap) -> bool {
    forall|u: u64, x: u64| g.contains_key(u) && #[trigger] g[u].contains_key(x) ==> g.contains_key(x)
}

/// A directed graph with weighted edges.
#[derive(Clone, Debug)]
pub struct Graph {
    pub adjacency: HashMap<u64, HashMap<u64, u64>>,
}

impl View for Graph {
    type V = EdgeMap;

    open spec fn view(&self) -> EdgeMap {
        nested_view(self.adjacency@)
    }
}

impl Graph {
    /// The empty graph.
    pub fn new() -> (g: Self)
        ensures
            g@ == EdgeMap::empty(),
    {
        let g = Graph { adjacency: HashMap::new() };
        assert(g@ =~= EdgeMap::empty());
        g
    }

    /// Adds vertex `v` with no edges, unless it is already a vertex.
    pub fn add_vertex(&mut self, v: u64)
        ensures
            final(self)@ == with_vertex(old(self)@, v),
    {
        if !self.adjacency.contains_key(&v) {
            self.adjacency.insert(v, HashMap::new());
            assert(self@ =~= old(self)@.insert(v, Map::empty()));
        }
    }
    /// Adds the edge `from -> to` with weight `w`, adding both endpoints as
    /// vertices first; an earlier weight of the same edge is replaced.
    pub fn add_edge(&mut self, from: u64, to: u64, weight: u64)
        ensures
            final(self)@ == with_edge(old(self)@, from, to, weight),
    {
        self.add_vertex(from);
        self.add_vertex(to);
        let ghost mid = self@;
        assert(mid.contains_key(from));
        let mut neighbours = match self.adjacency.remove(&from) {
            Some(n) => n,
            None => HashMap::new(),
        };
        assert(neighbours@ == mid[from]);
        neighbours.insert(to, weight);
        self.adjacency.insert(from, neighbours);
        assert(self@ =~= mid.insert(from, mid[from].insert(to, weight)));
    }

    /// Removes vertex `v` together with every edge that ends at it.
    pub fn remove_vertex(&mut self, v: u64)
        ensures
            final(self)@ == without_vertex(old(self)@, v),
    {
        let ghost g0 = self@;
        self.adjacency.remove(&v);
        let mut keys: Vec<u64> = Vec::new();
        let ghost full = spec_keys_iter(&self.adjacency).remaining().unref();
        for k in it: self.adjacency.keys()
            invariant
                it.seq().unref() == full,
                keys@ == full.take(it.index()),
        {
            keys.push(*k);
            assert(full.take(it.index() + 1) =~= full.take(it.index()).push(*k));
        }
        let ghost start = self@;
        assert(keys@ =~= full);
        let n = keys.len();
        for i in 0..n
            invariant
                n == keys.len(),
                keys@.no_duplicates(),
                keys@.to_set() == start.dom(),
                self@.dom() == start.dom(),
                forall|j: int| 0 <= j < i ==> #[trigger] self@[keys@[j]] == start[keys@[j]].remove(v),
                forall|j: int| i <= j < n ==> #[trigger] self@[keys@[j]] == start[keys@[j]],
        {
            let k = keys[i];
            let ghost prev = self@;
            assert(keys@.to_set().contains(k));
            assert(self.adjacency@.contains_key(k));
            if let Some(mut inner) = self.adjacency.remove(&k) {
                assert(inner@ == prev[k]);
                inner.remove(&v);
                self.adjacency.insert(k, inner);
                assert(self@ =~= prev.insert(k, prev[k].remove(v)));
            }
            assert forall|j: int| 0 <= j < n && j != i implies keys@[j] != k by {
                assert(keys@[j] != keys@[i as int]);
            }
        }
        assert(self@ =~= without_vertex(g0, v));
    }

    /// Removes the edge `from -> to`, if there is one.
    pub fn remove_edge(&mut self, from: u64, to: u64)
        ensures
            final(self)@ == without_edge(old(self)@, from, to),
    {
        if let Some(mut neighbors) = self.adjacency.remove(&from) {
            neighbors.remove(&to);
            self.adjacency.insert(from, neighbors);
            assert(self@ =~= without_edge(old(self)@, from, to));
        }
    }

    /// The out-edges of `v` (target to weight), if `v` is a vertex.
    pub fn neighbors(&self, v: u64) -> (res: Option<&HashMap<u64, u64>>)
        ensures
            res is Some <==> self@.contains_key(v),
            res matches Some(m) ==> m@ == self@[v],
    {
        self.adjacency.get(&v)
    }

    /// The weight of the edge `from -> to`, if there is one.
    pub fn get_edge_weight(&self, from: u64, to: u64) -> (res: Option<u64>)
        ensures
            res == edge_weight(self@, from, to),
    {
        match self.adjacency.get(&from) {
            Some(neighbors) => match neighbors.get(&to) {
                Some(w) => Some(*w),
                None => None,
            },
            None => None,
        }
    }

    /// Adds the edge `from -> to` with weight `1.0`.
    pub fn add_unweighted_edge(&mut self, from: u64, to: u64)
        ensures
            final(self)@ == with_edge(old(self)@, from, to, UNIT_WEIGHT),
    {
        self.add_edge(from, to, UNIT_WEIGHT);
    }
}

impl Default for Graph {
    fn default() -> (g: Self)
        ensures
            g@ == EdgeMap::empty(),
    {
        Graph::new()
    }
}

/// Reading an edge back after adding it gives the weight that was written.
pub proof fn lemma_read_after_add_edge(g: EdgeMap, from: u64, to: u64, w: u64)
    ensures
        edge_weight(with_edge(g, from, to, w), from, to) == Some(w),
{
}

/// Adding an edge leaves the weight of every other pair of vertices as it was.
pub proof fn lemma_add_edge_keeps_others(g: EdgeMap, from: u64, to: u64, w: u64, a: u64, b: u64)
    requires
        a != from || b != to,
    ensures
        edge_weight(with_edge(g, from, to, w), a, b) == edge_weight(g, a, b),
{
}

/// After an edge is removed there is no edge between its endpoints, and every
/// other edge keeps its weight.
pub proof fn lemma_remove_edge(g: EdgeMap, from: u64, to: u64, a: u64, b: u64)
    ensures
        edge_weight(without_edge(g, from, to), from, to) is None,
        (a != from || b != to) ==> edge_weight(without_edge(g, from, to), a, b) == edge_weight(
            g,
            a,
            b,
        ),
        without_edge(g, from, to).dom() == g.dom(),
{
}

/// After a vertex is removed it is no vertex, no edge leads to or from it, and
/// every edge between two other vertices keeps its weight.
pub proof fn lemma_remove_vertex(g: EdgeMap, v: u64, a: u64, b: u64)
    ensures
        !without_vertex(g, v).contains_key(v),
        edge_weight(without_vertex(g, v), a, v) is None,
        edge_weight(without_vertex(g, v), v, b) is None,
        (a != v && b != v) ==> edge_weight(without_vertex(g, v), a, b) == edge_weight(g, a, b),
        without_vertex(g, v).dom() == g.dom().remove(v),
{
    assert(without_vertex(g, v).dom() =~= g.dom().remove(v));
}

/// Adding a vertex that is already there changes nothing; adding the same
/// vertex or the same edge twice is the same as adding it once.
pub proof fn lemma_add_idempotent(g: EdgeMap, v: u64, from: u64, to: u64, w: u64)
    ensures
        g.contains_key(v) ==> with_vertex(g, v) == g,
        with_vertex(with_vertex(g, v), v) == with_vertex(g, v),
        with_edge(with_edge(g, from, to, w), from, to, w) == with_edge(g, from, to, w),
{
    let g1 = with_edge(g, from, to, w);
    assert(with_vertex(with_vertex(g1, from), to) == g1);
    assert(g1[from].insert(to, w) =~= g1[from]);
    assert(with_edge(g1, from, to, w) =~= g1);
}

/// Removing an edge that was just added to a graph without it gives the graph back,
/// once both endpoints were vertices already.
pub proof fn lemma_remove_undoes_add_edge(g: EdgeMap, from: u64, to: u64, w: u64)
    requires
        g.contains_key(from),
        g.contains_key(to),
        !g[from].contains_key(to),
    ensures
        without_edge(with_edge(g, from, to, w), from, to) == g,
{
    let r = without_edge(with_edge(g, from, to, w), from, to);
    assert(r[from] =~= g[from]);
    assert(r =~= g);
}

/// Every operation keeps the graph closed: no edge ever ends outside the vertices.
pub proof fn lemma_closed_preserved(g: EdgeMap, v: u64, from: u64, to: u64, w: u64)
    requires
        closed(g),
    ensures
        closed(with_vertex(g, v)),
        closed(with_edge(g, from, to, w)),
        closed(without_edge(g, from, to)),
        closed(without_vertex(g, v)),
{
    let ge = with_edge(g, from, to, w);
    assert forall|u: u64, x: u64| ge.contains_key(u) && #[trigger] ge[u].contains_key(x) implies ge.contains_key(x) by {
        if u == from && x != to {
            assert(g.contains_key(from) ==> g[from].contains_key(x));
        }
    }
    let gr = without_edge(g, from, to);
    assert forall|u: u64, x: u64| gr.contains_key(u) && #[trigger] gr[u].contains_key(x) implies gr.contains_key(x) by {
        assert(g[u].contains_key(x));
    }
    let gv = without_vertex(g, v);
    assert forall|u: u64, x: u64| gv.contains_key(u) && #[trigger] gv[u].contains_key(x) implies gv.contains_key(x) by {
        assert(g[u].contains_key(x));
    }
}

} // verus!
