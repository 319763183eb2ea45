//! Reading a path back out of a predecessor table, as a shortest-path search
//! leaves it: every reached vertex records the vertex it was reached from, and
//! the start vertex records none.

use std::collections::HashMap;
use vstd::prelude::*;

use crate::graph::{has_edge, is_walk, EdgeMap, Graph};
use crate::graph_vec;

verus! {

broadcast use vstd::std_specs::hash::group_hash_axioms;

/// A predecessor table: the vertex that a vertex was reached from, if any.
pub type Pred = spec_fn(u64) -> Option<u64>;

/// From `v`, following predecessors stays on vertices that satisfy `ok` and
/// comes to a vertex without predecessor within `fuel` steps.
pub open spec fn descends(pred: Pred, ok: spec_fn(u64) -> bool, v: u64, fuel: nat) -> bool
    decreases fuel,
{
    ok(v) && match pred(v) {
        None => true,
        Some(p) => fuel > 0 && descends(pred, ok, p, (fuel - 1) as nat),
    }
}

/// `path` starts at a vertex without predecessor, ends at `end`, and each vertex
/// in it was reached from the one before.
pub open spec fn is_chain_to(pred: Pred, path: Seq<u64>, end: u64) -> bool {
    &&& path.len() > 0
    &&& path.last() == end
    &&& pred(path[0]) is None
    &&& forall|i: int| 1 <= i < path.len() ==> pred(#[trigger] path[i]) == Some(path[i - 1])
}

/// Two chains to the same vertex are the same: the chain is determined by its end.
pub proof fn lemma_chain_unique(pred: Pred, a: Seq<u64>, b: Seq<u64>, end: u64)
    requires
        is_chain_to(pred, a, end),
        is_chain_to(pred, b, end),
    ensures
        a == b,
    decreases a.len(),
{
    if a.len() == 1 || b.len() == 1 {
        if a.len() > 1 {
            assert(pred(a[a.len() - 1]) == Some(a[a.len() - 2]));
        }
        if b.len() > 1 {
            assert(pred(b[b.len() - 1]) == Some(b[b.len() - 2]));
        }
        assert(a =~= b);
    } else {
        let a1 = a.drop_last();
        let b1 = b.drop_last();
        assert(pred(a[a.len() - 1]) == Some(a[a.len() - 2]));
        assert(pred(b[b.len() - 1]) == Some(b[b.len() - 2]));
        assert forall|i: int| 1 <= i < a1.len() implies pred(#[trigger] a1[i]) == Some(a1[i - 1]) by {
            assert(a1[i] == a[i]);
        }
        assert forall|i: int| 1 <= i < b1.len() implies pred(#[trigger] b1[i]) == Some(b1[i - 1]) by {
            assert(b1[i] == b[i]);
        }
        lemma_chain_unique(pred, a1, b1, a1.last());
        assert(a =~= b1.push(end));
        assert(b =~= b1.push(end));
    }
}

/// The predecessor table of a vector indexed by vertex id.
pub open spec fn vec_pred(prev: Seq<Option<u64>>) -> Pred {
    |v: u64| if v < prev.len() { prev[v as int] } else { None }
}

/// The vertices that index into a vector of length `n`.
pub open spec fn below(n: nat) -> spec_fn(u64) -> bool {
    |v: u64| v < n
}

/// The predecessor table of a map in which `u64::MAX` marks the start vertex.
pub open spec fn map_pred(prev: Map<u64, u64>) -> Pred {
    |v: u64| if prev.contains_key(v) && prev[v] != u64::MAX { Some(prev[v]) } else { None }
}

/// Every vertex.
pub open spec fn anywhere() -> spec_fn(u64) -> bool {
    |v: u64| true
}

/// The predecessor table of a vector of signed ids in which a negative entry
/// means "no predecessor".
pub open spec fn signed_pred(prev: Seq<i64>) -> Pred {
    |v: u64| if v < prev.len() && prev[v as int] >= 0 { Some(prev[v as int] as u64) } else { None }
}

/// The slot of a vertex id in a vector indexed by vertex id.
fn slot(v: u64) -> (i: usize)
    requires
        v <= usize::MAX,
    ensures
        i == v,
{
    v as usize
}

/// The vector with the elements of `s` in reverse order.
fn reversed(s: &Vec<u64>) -> (r: Vec<u64>)
    ensures
        r@ == s@.reverse(),
{
    let mut r: Vec<u64> = Vec::new();
    let n = s.len();
    let mut i = n;
    while i > 0
        invariant
            i <= n,
            n == s.len(),
            r@ == s@.subrange(i as int, n as int).reverse(),
        decreases i,
    {
        i = i - 1;
        r.push(s[i]);
        assert(s@.subrange(i as int, n as int).reverse() =~= s@.subrange(i + 1, n as int).reverse().push(s@[i as int]));
    }
    assert(s@.subrange(0, n as int) =~= s@);
    r
}

/// Turns a path collected from its end backwards into the path from its start.
proof fn lemma_backward_is_chain(pred: Pred, back: Seq<u64>, end: u64)
    requires
        back.len() > 0,
        back[0] == end,
        pred(back.last()) is None,
        forall|i: int| 1 <= i < back.len() ==> pred(#[trigger] back[i - 1]) == Some(back[i]),
    ensures
        is_chain_to(pred, back.reverse(), end),
{
    let f = back.reverse();
    assert forall|i: int| 1 <= i < f.len() implies pred(#[trigger] f[i]) == Some(f[i - 1]) by {
        let j = back.len() - i;
        assert(f[i] == back[j - 1]);
        assert(f[i - 1] == back[j]);
        assert(pred(back[j - 1]) == Some(back[j]));
    }
}

/// The path to `end` recorded in `prev`, a vector of predecessors indexed by
/// vertex id: `None` when the walk back from `end` leaves the vector or takes
/// more steps than the vector has entries (which a table that a search filled
/// never does, since a path visits each vertex at most once).
pub fn path_from_vec(prev: &Vec<Option<u64>>, end: u64) -> (path: Option<Vec<u64>>)
    ensures
        path is Some <==> descends(vec_pred(prev@), below(prev@.len()), end, prev@.len()),
        path matches Some(p) ==> is_chain_to(vec_pred(prev@), p@, end),
{
    let ghost pred = vec_pred(prev@);
    let ghost ok = below(prev@.len());
    let n = prev.len();
    let mut steps: usize = 0;
    let mut back: Vec<u64> = Vec::new();
    back.push(end);
    let mut current = end;
    loop
        invariant
            pred == vec_pred(prev@),
            ok == below(prev@.len()),
            n == prev@.len(),
            steps <= n,
            descends(pred, ok, end, n as nat) == descends(pred, ok, current, (n - steps) as nat),
            back.len() > 0,
            back@[0] == end,
            back@.last() == current,
            forall|i: int| 1 <= i < back.len() ==> pred(#[trigger] back@[i - 1]) == Some(back@[i]),
        decreases n - steps,
    {
        if current >= n as u64 {
            return None;
        }
        proof {
            assert(ok(current));
            assert(pred(current) == prev@[current as int]);
        }
        match prev[slot(current)] {
            Some(p) => {
                if steps == n {
                    return None;
                }
                back.push(p);
                current = p;
                steps = steps + 1;
            },
            None => {
                proof {
                    lemma_backward_is_chain(pred, back@, end);
                }
                return Some(reversed(&back));
            },
        }
    }
}

/// The path to `end` recorded in `prev`, a map from each reached vertex to its
/// predecessor in which `u64::MAX` marks the start; the walk stops at a vertex
/// that has no entry or whose entry is `u64::MAX`. `None` when the walk takes
/// more steps than the map has entries.
pub fn path_from_map(prev: &HashMap<u64, u64>, end: u64) -> (path: Option<Vec<u64>>)
    ensures
        path is Some <==> descends(map_pred(prev@), anywhere(), end, prev@.len()),
        path matches Some(p) ==> is_chain_to(map_pred(prev@), p@, end),
{
    let ghost pred = map_pred(prev@);
    let ghost ok = anywhere();
    let n = prev.len();
    let mut steps: usize = 0;
    let mut back: Vec<u64> = Vec::new();
    back.push(end);
    let mut current = end;
    loop
        invariant
            pred == map_pred(prev@),
            ok == anywhere(),
            n == prev@.len(),
            steps <= n,
            descends(pred, ok, end, n as nat) == descends(pred, ok, current, (n - steps) as nat),
            back.len() > 0,
            back@[0] == end,
            back@.last() == current,
            forall|i: int| 1 <= i < back.len() ==> pred(#[trigger] back@[i - 1]) == Some(back@[i]),
        decreases n - steps,
    {
        proof {
            assert(ok(current));
            assert(pred(current) == (if prev@.contains_key(current) && prev@[current] != u64::MAX {
                Some(prev@[current])
            } else {
                None
            }));
        }
        let next = match prev.get(&current) {
            Some(p) => if *p != u64::MAX {
                Some(*p)
            } else {
                None
            },
            None => None,
        };
        match next {
            Some(p) => {
                if steps == n {
                    return None;
                }
                back.push(p);
                current = p;
                steps = steps + 1;
            },
            None => {
                proof {
                    lemma_backward_is_chain(pred, back@, end);
                }
                return Some(reversed(&back));
            },
        }
    }
}

/// The path to `end` recorded in `prev`, a vector of signed predecessor ids
/// indexed by vertex id in which a negative entry marks the start: `None` when
/// the walk leaves the vector or takes more steps than the vector has entries.
pub fn path_from_signed(prev: &Vec<i64>, end: u64) -> (path: Option<Vec<u64>>)
    ensures
        path is Some <==> descends(signed_pred(prev@), below(prev@.len()), end, prev@.len()),
        path matches Some(p) ==> is_chain_to(signed_pred(prev@), p@, end),
{
    let ghost pred = signed_pred(prev@);
    let ghost ok = below(prev@.len());
    let n = prev.len();
    let mut steps: usize = 0;
    let mut back: Vec<u64> = Vec::new();
    back.push(end);
    let mut current = end;
    loop
        invariant
            pred == signed_pred(prev@),
            ok == below(prev@.len()),
            n == prev@.len(),
            steps <= n,
            descends(pred, ok, end, n as nat) == descends(pred, ok, current, (n - steps) as nat),
            back.len() > 0,
            back@[0] == end,
            back@.last() == current,
            forall|i: int| 1 <= i < back.len() ==> pred(#[trigger] back@[i - 1]) == Some(back@[i]),
        decreases n - steps,
    {
        if current >= n as u64 {
            return None;
        }
        proof {
            assert(ok(current));
            assert(pred(current) == (if prev@[current as int] >= 0 {
                Some(prev@[current as int] as u64)
            } else {
                None
            }));
        }
        let p = prev[slot(current)];
        if p >= 0 {
            if steps == n {
                return None;
            }
            back.push(p as u64);
            current = p as u64;
            steps = steps + 1;
        } else {
            proof {
                lemma_backward_is_chain(pred, back@, end);
            }
            return Some(reversed(&back));
        }
    }
}

/// Every entry `p` of `pred` for a vertex `v` is an edge `p -> v` of `g`.
pub open spec fn records_edges(g: EdgeMap, pred: Pred) -> bool {
    forall|v: u64| #[trigger] pred(v) is Some ==> has_edge(g, pred(v)->0, v)
}

/// A chain read back from a table whose every entry `p` for a vertex `v` is an
/// edge `p -> v` of `g` is a walk of `g`.
proof fn lemma_chain_is_walk(g: EdgeMap, pred: Pred, path: Seq<u64>, end: u64)
    requires
        is_chain_to(pred, path, end),
        records_edges(g, pred),
    ensures
        is_walk(g, path),
{
    assert forall|i: int| 0 <= i < path.len() - 1 implies #[trigger] has_edge(g, path[i], path[i + 1]) by {
        assert(pred(path[i + 1]) == Some(path[(i + 1) - 1]));
    }
}

/// The predecessors that a search over a [`Graph`] records, indexed by vertex id:
/// a vertex's entry is the vertex it was last reached from, and only an edge of
/// the graph is ever recorded.
pub struct PredTable<'g> {
    graph: &'g Graph,
    prev: Vec<Option<u64>>,
}

impl<'g> PredTable<'g> {
    /// The graph searched.
    pub closed spec fn graph_view(&self) -> EdgeMap {
        self.graph@
    }

    /// The entries, indexed by vertex id.
    pub closed spec fn entries(&self) -> Seq<Option<u64>> {
        self.prev@
    }

    /// Every entry `p` for a vertex `v` is an edge `p -> v` of the graph.
    pub open spec fn wf(&self) -> bool {
        records_edges(self.graph_view(), vec_pred(self.entries()))
    }

    /// A table of `size` entries, none recorded yet.
    pub fn new(graph: &'g Graph, size: usize) -> (t: Self)
        ensures
            t.wf(),
            t.graph_view() == graph@,
            t.entries() == Seq::new(size as nat, |i: int| None::<u64>),
    {
        let mut prev: Vec<Option<u64>> = Vec::new();
        for i in 0..size
            invariant
                prev@ == Seq::new(i as nat, |j: int| None::<u64>),
        {
            prev.push(None);
            assert(prev@ =~= Seq::new((i + 1) as nat, |j: int| None::<u64>));
        }
        PredTable { graph, prev }
    }

    /// Records that `v` was reached from `p`, when `v` has an entry and `p -> v`
    /// is an edge of the graph; otherwise changes nothing.
    pub fn record(&mut self, v: u64, p: u64) -> (recorded: bool)
        requires
            old(self).wf(),
        ensures
            final(self).wf(),
            final(self).graph_view() == old(self).graph_view(),
            recorded == (v < old(self).entries().len() && has_edge(old(self).graph_view(), p, v)),
            recorded ==> final(self).entries() == old(self).entries().update(v as int, Some(p)),
            !recorded ==> final(self).entries() == old(self).entries(),
    {
        if v < self.prev.len() as u64 && self.graph.get_edge_weight(p, v).is_some() {
            let i = slot(v);
            self.prev.set(i, Some(p));
            proof {
                let pr = vec_pred(self.entries());
                assert forall|u: u64| #[trigger] pr(u) is Some implies has_edge(self.graph_view(), pr(u)->0, u) by {
                    if u != v {
                        assert(vec_pred(old(self).entries())(u) == pr(u));
                    }
                }
            }
            true
        } else {
            false
        }
    }

    /// The path to `end` that the table records, as [`path_from_vec`] reads it;
    /// it is a walk of the graph.
    pub fn path_to(&self, end: u64) -> (path: Option<Vec<u64>>)
        requires
            self.wf(),
        ensures
            path is Some <==> descends(vec_pred(self.entries()), below(self.entries().len()), end, self.entries().len()),
            path matches Some(p) ==> is_chain_to(vec_pred(self.entries()), p@, end) && is_walk(self.graph_view(), p@),
    {
        let path = path_from_vec(&self.prev, end);
        proof {
            if path is Some {
                lemma_chain_is_walk(self.graph@, vec_pred(self.prev@), path->0@, end);
            }
        }
        path
    }
}

/// The predecessors that a search over a [`graph_vec::Graph`] records, as a map
/// in which `u64::MAX` marks the start: only an edge of the graph is ever
/// recorded.
pub struct PredMap<'g> {
    graph: &'g graph_vec::Graph,
    prev: HashMap<u64, u64>,
}

impl<'g> PredMap<'g> {
    /// The graph searched.
    pub closed spec fn graph_view(&self) -> EdgeMap {
        self.graph@
    }

    /// The entries.
    pub closed spec fn entries(&self) -> Map<u64, u64> {
        self.prev@
    }

    /// The graph is well formed, and every entry `p` for a vertex `v` other than
    /// the start marker is an edge `p -> v` of the graph.
    pub closed spec fn wf(&self) -> bool {
        &&& self.graph.wf()
        &&& records_edges(self.graph@, map_pred(self.prev@))
    }

    /// A map that records `start` as the start of the search.
    pub fn new(graph: &'g graph_vec::Graph, start: u64) -> (t: Self)
        requires
            graph.wf(),
        ensures
            t.wf(),
            t.graph_view() == graph@,
            t.entries() == map![start => u64::MAX],
    {
        let mut prev: HashMap<u64, u64> = HashMap::new();
        prev.insert(start, u64::MAX);
        assert(prev@ =~= map![start => u64::MAX]);
        PredMap { graph, prev }
    }

    /// Records that `v` was reached from `p`, when `p` is no start marker and
    /// `p -> v` is an edge of the graph; otherwise changes nothing.
    pub fn record(&mut self, v: u64, p: u64) -> (recorded: bool)
        requires
            old(self).wf(),
        ensures
            final(self).wf(),
            final(self).graph_view() == old(self).graph_view(),
            recorded == (p != u64::MAX && has_edge(old(self).graph_view(), p, v)),
            recorded ==> final(self).entries() == old(self).entries().insert(v, p),
            !recorded ==> final(self).entries() == old(self).entries(),
    {
        if p != u64::MAX && self.graph.get_edge_weight(p, v).is_some() {
            self.prev.insert(v, p);
            proof {
                let pr = map_pred(self.prev@);
                assert forall|u: u64| #[trigger] pr(u) is Some implies has_edge(self.graph@, pr(u)->0, u) by {
                    if u != v {
                        assert(map_pred(old(self).prev@)(u) == pr(u));
                    }
                }
            }
            true
        } else {
            false
        }
    }

    /// The path to `end` that the map records, as [`path_from_map`] reads it; it
    /// is a walk of the graph.
    pub fn path_to(&self, end: u64) -> (path: Option<Vec<u64>>)
        requires
            self.wf(),
        ensures
            path is Some <==> descends(map_pred(self.entries()), anywhere(), end, self.entries().len()),
            path matches Some(p) ==> is_chain_to(map_pred(self.entries()), p@, end) && is_walk(self.graph_view(), p@),
    {
        let path = path_from_map(&self.prev, end);
        proof {
            if path is Some {
                lemma_chain_is_walk(self.graph@, map_pred(self.prev@), path->0@, end);
            }
        }
        path
    }
}

} // verus!
