//! A directed weighted graph that keeps the out-edges of each vertex in a vector
//! sorted by target vertex, found by binary search.
//!
//! Its abstract value is the same map of maps as that of [`crate::graph::Graph`],
//! so the laws proved there over [`EdgeMap`] hold of this representation too.
//! Weights are carried as the 64-bit pattern of an IEEE-754 double.

use std::collections::HashMap;
use vstd::prelude::*;
use vstd::std_specs::hash::spec_keys_iter;
use vstd::std_specs::iter::IteratorSpec;

use crate::graph::{without_edge, without_vertex, with_edge, with_vertex, EdgeMap, UNIT_WEIGHT};

verus! {

broadcast use vstd::std_specs::hash::group_hash_axioms;

/// The out-edges `(target, weight)` of a vertex, in strictly increasing order of target.
pub open spec fn sorted_targets(s: Seq<(u64, u64)>) -> bool {
    forall|i: int, j: int| 0 <= i < j < s.len() ==> #[trigger] s[i].0 < #[trigger] s[j].0
}

/// Some entry of `s` has target `t`.
pub open spec fn has_target(s: Seq<(u64, u64)>, t: u64) -> bool {
    exists|i: int| 0 <= i < s.len() && #[trigger] s[i].0 == t
}

/// The out-edges of a vertex as a map from target to weight.
pub open spec fn row_map(s: Seq<(u64, u64)>) -> Map<u64, u64> {
    Map::new(
        |t: u64| has_target(s, t),
        |t: u64| s[choose|i: int| 0 <= i < s.len() && #[trigger] s[i].0 == t].1,
    )
}

/// The abstract graph of a map from vertex to sorted out-edge vector.
pub open spec fn rows_view(m: Map<u64, Vec<(u64, u64)>>) -> EdgeMap {
    Map::new(|v: u64| m.contains_key(v), |v: u64| row_map(m[v]@))
}

/// An entry of a sorted row is what the row's map holds for its target.
pub proof fn lemma_row_at(s: Seq<(u64, u64)>, i: int)
    requires
        sorted_targets(s),
        0 <= i < s.len(),
    ensures
        row_map(s).contains_key(s[i].0),
        row_map(s)[s[i].0] == s[i].1,
{
    let t = s[i].0;
    assert(has_target(s, t));
    let k = choose|k: int| 0 <= k < s.len() && #[trigger] s[k].0 == t;
    if k < i {
        assert(s[k].0 < s[i].0);
    } else if k > i {
        assert(s[i].0 < s[k].0);
    }
}

/// Writing weight `w` for target `t` at the place that binary search found keeps
/// the row sorted and gives the map with `t` set to `w`.
pub proof fn lemma_row_write(s: Seq<(u64, u64)>, t: u64, w: u64, i: int, found: bool)
    requires
        sorted_targets(s),
        0 <= i <= s.len(),
        found ==> i < s.len() && s[i].0 == t,
        !found ==> (forall|j: int| 0 <= j < i ==> #[trigger] s[j].0 < t),
        !found ==> (forall|j: int| i <= j < s.len() ==> #[trigger] s[j].0 > t),
    ensures
        sorted_targets(if found { s.update(i, (t, w)) } else { s.insert(i, (t, w)) }),
        row_map(if found { s.update(i, (t, w)) } else { s.insert(i, (t, w)) }) == row_map(s).insert(t, w),
{
    let r = if found { s.update(i, (t, w)) } else { s.insert(i, (t, w)) };
    assert(sorted_targets(r)) by {
        assert forall|a: int, b: int| 0 <= a < b < r.len() implies #[trigger] r[a].0 < #[trigger] r[b].0 by {
            if found {
            } else {
                if a < i && b > i {
                    assert(r[b] == s[b - 1]);
                } else if a > i {
                    assert(r[a] == s[a - 1]);
                    assert(r[b] == s[b - 1]);
                } else if a == i {
                    assert(r[b] == s[b - 1]);
                }
            }
        }
    }
    let m = row_map(s).insert(t, w);
    assert forall|x: u64| #[trigger] row_map(r).contains_key(x) <==> m.contains_key(x) by {
        if row_map(r).contains_key(x) {
            let k = choose|k: int| 0 <= k < r.len() && #[trigger] r[k].0 == x;
            if x != t {
                if found {
                    assert(s[k].0 == x);
                } else if k < i {
                    assert(s[k].0 == x);
                } else {
                    assert(s[k - 1].0 == x);
                }
                assert(has_target(s, x));
            }
        }
        if m.contains_key(x) {
            if x == t {
                assert(r[i].0 == t);
            } else {
                let k = choose|k: int| 0 <= k < s.len() && #[trigger] s[k].0 == x;
                if found || k < i {
                    assert(r[k].0 == x);
                } else {
                    assert(r[k + 1].0 == x);
                }
                assert(has_target(r, x));
            }
        }
    }
    assert forall|x: u64| #[trigger] row_map(r).contains_key(x) implies row_map(r)[x] == m[x] by {
        if x == t {
            lemma_row_at(r, i);
        } else {
            let k = choose|k: int| 0 <= k < s.len() && #[trigger] s[k].0 == x;
            lemma_row_at(s, k);
            if found || k < i {
                lemma_row_at(r, k);
            } else {
                lemma_row_at(r, k + 1);
            }
        }
    }
    assert(row_map(r) =~= m);
}

/// Removing the entry that binary search found for target `t` keeps the row
/// sorted and gives the map without `t`.
pub proof fn lemma_row_remove(s: Seq<(u64, u64)>, t: u64, i: int)
    requires
        sorted_targets(s),
        0 <= i < s.len(),
        s[i].0 == t,
    ensures
        sorted_targets(s.remove(i)),
        row_map(s.remove(i)) == row_map(s).remove(t),
{
    let r = s.remove(i);
    assert(sorted_targets(r)) by {
        assert forall|a: int, b: int| 0 <= a < b < r.len() implies #[trigger] r[a].0 < #[trigger] r[b].0 by {
            if a >= i {
                assert(r[a] == s[a + 1]);
            }
            if b >= i {
                assert(r[b] == s[b + 1]);
            }
        }
    }
    let m = row_map(s).remove(t);
    assert forall|x: u64| #[trigger] row_map(r).contains_key(x) <==> m.contains_key(x) by {
        if row_map(r).contains_key(x) {
            let k = choose|k: int| 0 <= k < r.len() && #[trigger] r[k].0 == x;
            if k < i {
                assert(s[k].0 == x);
                assert(s[k].0 < s[i].0);
            } else {
                assert(s[k + 1].0 == x);
                assert(s[i].0 < s[k + 1].0);
            }
            assert(has_target(s, x));
        }
        if m.contains_key(x) {
            let k = choose|k: int| 0 <= k < s.len() && #[trigger] s[k].0 == x;
            if k < i {
                assert(r[k].0 == x);
            } else {
                assert(k != i);
                assert(r[k - 1].0 == x);
            }
            assert(has_target(r, x));
        }
    }
    assert forall|x: u64| #[trigger] row_map(r).contains_key(x) implies row_map(r)[x] == m[x] by {
        let k = choose|k: int| 0 <= k < r.len() && #[trigger] r[k].0 == x;
        lemma_row_at(r, k);
        if k < i {
            lemma_row_at(s, k);
        } else {
            lemma_row_at(s, k + 1);
        }
    }
    assert(row_map(r) =~= m);
}

/// Binary search of a sorted row for target `to`: `Ok` with the index of the
/// entry for `to`, or `Err` with the index where such an entry would be inserted.
pub fn search_target(s: &Vec<(u64, u64)>, to: u64) -> (r: Result<usize, usize>)
    requires
        sorted_targets(s@),
    ensures
        match r {
            Ok(i) => i < s@.len() && s@[i as int].0 == to,
            Err(i) => i <= s@.len() && (forall|j: int| 0 <= j < i ==> #[trigger] s@[j].0 < to) && (
            forall|j: int| i <= j < s@.len() ==> #[trigger] s@[j].0 > to),
        },
{
    let mut lo: usize = 0;
    let mut hi: usize = s.len();
    while lo < hi
        invariant
            0 <= lo <= hi <= s@.len(),
            sorted_targets(s@),
            forall|j: int| 0 <= j < lo ==> #[trigger] s@[j].0 < to,
            forall|j: int| hi <= j < s@.len() ==> #[trigger] s@[j].0 > to,
        decreases hi - lo,
    {
        let mid = lo + (hi - lo) / 2;
        let x = s[mid].0;
        if x == to {
            return Ok(mid);
        } else if x < to {
            assert forall|j: int| 0 <= j < mid + 1 implies #[trigger] s@[j].0 < to by {
                if j < mid {
                    assert(s@[j].0 < s@[mid as int].0);
                }
            }
            lo = mid + 1;
        } else {
            assert forall|j: int| mid <= j < s@.len() implies #[trigger] s@[j].0 > to by {
                if j > mid {
                    assert(s@[mid as int].0 < s@[j].0);
                }
            }
            hi = mid;
        }
    }
    Err(lo)
}

/// A directed graph with weighted edges, each vertex's out-edges sorted by target.
#[derive(Clone, Debug)]
pub struct Graph {
    pub adjacency: HashMap<u64, Vec<(u64, u64)>>,
}

impl View for Graph {
    type V = EdgeMap;

    open spec fn view(&self) -> EdgeMap {
        rows_view(self.adjacency@)
    }
}

impl Graph {
    /// Every row of out-edges is sorted by target, each target once.
    pub open spec fn wf(&self) -> bool {
        forall|v: u64| #[trigger] self.adjacency@.contains_key(v) ==> sorted_targets(self.adjacency@[v]@)
    }

    /// The empty graph.
    pub fn new() -> (g: Self)
        ensures
            g.wf(),
            g@ == EdgeMap::empty(),
    {
        let g = Graph { adjacency: HashMap::new() };
        assert(g@ =~= EdgeMap::empty());
        g
    }

    /// Adds vertex `v` with no edges, unless it is already a vertex.
    pub fn add_vertex(&mut self, v: u64)
        requires
            old(self).wf(),
        ensures
            final(self).wf(),
            final(self)@ == with_vertex(old(self)@, v),
    {
        if !self.adjacency.contains_key(&v) {
            self.adjacency.insert(v, Vec::new());
            assert(row_map(Seq::<(u64, u64)>::empty()) =~= Map::empty());
            assert(self@ =~= old(self)@.insert(v, Map::empty()));
        }
    }

    /// Adds the edge `from -> to` with weight `weight`, adding both endpoints as
    /// vertices first; an earlier weight of the same edge is replaced.
    pub fn add_edge(&mut self, from: u64, to: u64, weight: u64)
        requires
            old(self).wf(),
        ensures
            final(self).wf(),
            final(self)@ == with_edge(old(self)@, from, to, weight),
    {
        self.add_vertex(from);
        self.add_vertex(to);
        let ghost mid = self@;
        let ghost mid_adj = self.adjacency@;
        assert(mid.contains_key(from));
        let mut neighbours = match self.adjacency.remove(&from) {
            Some(n) => n,
            None => Vec::new(),
        };
        assert(neighbours@ == mid_adj[from]@);
        let ghost s = neighbours@;
        match search_target(&neighbours, to) {
            Ok(i) => {
                neighbours.set(i, (to, weight));
                proof {
                    lemma_row_write(s, to, weight, i as int, true);
                }
            },
            Err(i) => {
                neighbours.insert(i, (to, weight));
                proof {
                    lemma_row_write(s, to, weight, i as int, false);
                }
            },
        }
        self.adjacency.insert(from, neighbours);
        assert(self@ =~= mid.insert(from, mid[from].insert(to, weight)));
    }

    /// Removes vertex `v` together with every edge that ends at it.
    pub fn remove_vertex(&mut self, v: u64)
        requires
            old(self).wf(),
        ensures
            final(self).wf(),
            final(self)@ == without_vertex(old(self)@, v),
    {
        let ghost g0 = self@;
        self.adjacency.remove(&v);
        let mut keys: Vec<u64> = Vec::new();
        let ghost full = spec_keys_iter(&self.adjacency).remaining().unref();
        for k in it: self.adjacency.keys()
            invariant
                it.seq().unref() == full,
                keys@ == full.take(it.index()),
        {
            keys.push(*k);
            assert(full.take(it.index() + 1) =~= full.take(it.index()).push(*k));
        }
        let ghost start = self@;
        let ghost start_adj = self.adjacency@;
        assert(keys@ =~= full);
        let n = keys.len();
        for i in 0..n
            invariant
                n == keys.len(),
                keys@.no_duplicates(),
                keys@.to_set() == start.dom(),
                self@.dom() == start.dom(),
                self.wf(),
                forall|u: u64| #[trigger] start_adj.contains_key(u) ==> sorted_targets(start_adj[u]@),
                forall|j: int| 0 <= j < i ==> #[trigger] self@[keys@[j]] == start[keys@[j]].remove(v),
                forall|j: int| i <= j < n ==> #[trigger] self@[keys@[j]] == start[keys@[j]],
        {
            let k = keys[i];
            let ghost prev = self@;
            assert(keys@.to_set().contains(k));
            assert(self.adjacency@.contains_key(k));
            let ghost prev_adj = self.adjacency@;
            if let Some(mut row) = self.adjacency.remove(&k) {
                assert(row@ == prev_adj[k]@);
                let ghost s = row@;
                match search_target(&row, v) {
                    Ok(idx) => {
                        row.remove(idx);
                        proof {
                            lemma_row_remove(s, v, idx as int);
                        }
                    },
                    Err(_) => {
                        assert(!row_map(s).contains_key(v));
                        assert(row_map(s).remove(v) =~= row_map(s));
                    },
                }
                self.adjacency.insert(k, row);
                assert(self@ =~= prev.insert(k, prev[k].remove(v)));
            }
            assert forall|j: int| 0 <= j < n && j != i implies keys@[j] != k by {
                assert(keys@[j] != keys@[i as int]);
            }
        }
        assert(self@ =~= without_vertex(g0, v));
    }

    /// Removes the edge `from -> to`, if there is one.
    pub fn remove_edge(&mut self, from: u64, to: u64)
        requires
            old(self).wf(),
        ensures
            final(self).wf(),
            final(self)@ == without_edge(old(self)@, from, to),
    {
        let ghost g0 = self@;
        let ghost adj0 = self.adjacency@;
        if let Some(mut neighbors) = self.adjacency.remove(&from) {
            let ghost s = neighbors@;
            assert(s == adj0[from]@);
            match search_target(&neighbors, to) {
                Ok(i) => {
                    neighbors.remove(i);
                    proof {
                        lemma_row_remove(s, to, i as int);
                    }
                },
                Err(_) => {
                    assert(row_map(s).remove(to) =~= row_map(s));
                },
            }
            self.adjacency.insert(from, neighbors);
            assert(self@ =~= without_edge(g0, from, to));
        }
    }

    /// The out-edges of `v`, sorted by target, if `v` is a vertex.
    pub fn neighbors(&self, v: u64) -> (res: Option<&Vec<(u64, u64)>>)
        requires
            self.wf(),
        ensures
            res is Some <==> self@.contains_key(v),
            res matches Some(row) ==> sorted_targets(row@) && row_map(row@) == self@[v]
                && row@ == self.adjacency@[v]@,
    {
        self.adjacency.get(&v)
    }

    /// The weight of the edge `from -> to`, if there is one.
    pub fn get_edge_weight(&self, from: u64, to: u64) -> (res: Option<u64>)
        requires
            self.wf(),
        ensures
            res == crate::graph::edge_weight(self@, from, to),
    {
        match self.adjacency.get(&from) {
            Some(neighbours) => {
                match search_target(neighbours, to) {
                    Ok(i) => {
                        proof {
                            lemma_row_at(neighbours@, i as int);
                        }
                        Some(neighbours[i].1)
                    },
                    Err(_) => None,
                }
            },
            None => None,
        }
    }

    /// Adds the edge `from -> to` with weight `1.0`.
    pub fn add_unweighted_edge(&mut self, from: u64, to: u64)
        requires
            old(self).wf(),
        ensures
            final(self).wf(),
            final(self)@ == with_edge(old(self)@, from, to, UNIT_WEIGHT),
    {
        self.add_edge(from, to, UNIT_WEIGHT);
    }
}

impl Default for Graph {
    fn default() -> (g: Self)
        ensures
            g.wf(),
            g@ == EdgeMap::empty(),
    {
        Graph::new()
    }
}

} // verus!
