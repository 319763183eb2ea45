//! The construction of a random connected graph: vertices `0..n`, a random
//! spanning tree in which each vertex `i > 0` hangs below some smaller vertex,
//! then the given number of further random edges (as many as there is room
//! for: every further edge is new and joins two different vertices).
//!
//! The builder takes the random draws as arguments, one step at a time, so that
//! the caller can draw them, and each edge weight, from one generator in the
//! order the construction consumes them. What the builder decides (which edge a
//! draw names, whether an edge is new, when to stop) is verified here, and so is
//! the promise that the result is connected and has every further edge asked
//! for, as far as there is room.

use vstd::prelude::*;

use crate::graph::{has_edge, is_walk, lemma_add_edge_keeps_others, reaches, with_edge, EdgeMap, Graph};

verus! {

broadcast use vstd::std_specs::hash::group_hash_axioms;

/// What the construction needs next.
#[derive(Clone, Copy, Debug, PartialEq, Eq, Structural)]
pub enum Step {
    /// A random draw for the parent of `vertex` in the spanning tree, and the
    /// weight of that tree edge.
    TreeEdge { vertex: u64 },
    /// Two random draws for the endpoints of a further edge.
    ExtraPair,
    /// The weight of the further edge that the last pair of draws named.
    ExtraWeight,
    /// Nothing: the graph is complete.
    Done,
}

/// The vertices of `g` are exactly `0..n`.
pub open spec fn vertices_below(g: EdgeMap, n: u64) -> bool {
    forall|v: u64| #[trigger] g.contains_key(v) <==> v < n
}

/// Vertex `v` has an edge to it from a smaller vertex.
pub open spec fn has_parent(g: EdgeMap, v: u64) -> bool {
    exists|p: u64| p < v && #[trigger] has_edge(g, p, v)
}

/// Every vertex `v` with `1 <= v < k` has an edge to it from a smaller vertex.
pub open spec fn tree_below(g: EdgeMap, k: u64) -> bool {
    forall|v: u64| 1 <= v < k ==> #[trigger] has_parent(g, v)
}

/// A graph in which every vertex `v` in `1..n` has an edge from a smaller vertex
/// is connected: vertex `0` reaches every vertex below `n`.
pub proof fn lemma_tree_connects(g: EdgeMap, n: u64, v: u64)
    requires
        tree_below(g, n),
        v < n,
    ensures
        reaches(g, 0, v),
    decreases v,
{
    if v == 0 {
        let path = seq![0u64];
        assert(is_walk(g, path));
        assert(path.last() == 0);
    } else {
        assert(has_parent(g, v));
        let p = choose|p: u64| p < v && #[trigger] has_edge(g, p, v);
        lemma_tree_connects(g, n, p);
        let path = choose|path: Seq<u64>| is_walk(g, path) && path[0] == 0 && #[trigger] path.last() == p;
        let longer = path.push(v);
        assert forall|i: int| 0 <= i < longer.len() - 1 implies #[trigger] has_edge(g, longer[i], longer[i + 1]) by {
            if i < path.len() - 1 {
                assert(has_edge(g, path[i], path[i + 1]));
            }
        }
        assert(is_walk(g, longer));
        assert(longer.last() == v);
    }
}

/// Adding an edge keeps every edge that was there.
proof fn lemma_edges_kept(g: EdgeMap, from: u64, to: u64, w: u64, a: u64, b: u64)
    requires
        has_edge(g, a, b),
    ensures
        has_edge(with_edge(g, from, to, w), a, b),
{
}

/// The edges of `g`, as pairs `(from, to)`.
pub open spec fn edge_set(g: EdgeMap) -> Set<(u64, u64)> {
    Set::new(|e: (u64, u64)| has_edge(g, e.0, e.1))
}

/// The number of edges of `g`.
pub open spec fn edge_count(g: EdgeMap) -> nat {
    edge_set(g).len()
}

/// The pairs of two different vertices below `n`: the edges that a graph on
/// the vertices `0..n` without loops can have.
pub open spec fn vertex_pairs(n: u64) -> Set<(u64, u64)> {
    Set::new(|e: (u64, u64)| e.0 < n && e.1 < n && e.0 != e.1)
}

/// Some edge between two different vertices below `n` is still missing from `g`.
pub open spec fn has_room(g: EdgeMap, n: u64) -> bool {
    exists|f: u64, t: u64| f < n && t < n && f != t && !#[trigger] has_edge(g, f, t)
}

/// The number of tree edges of a spanning tree on `n` vertices.
pub open spec fn tree_edge_count(n: u64) -> nat {
    if n == 0 {
        0
    } else {
        (n - 1) as nat
    }
}

/// Adding an edge that was not there adds exactly that pair to the edges.
proof fn lemma_edge_set_insert(g: EdgeMap, from: u64, to: u64, w: u64)
    ensures
        edge_set(with_edge(g, from, to, w)) == edge_set(g).insert((from, to)),
{
    let g1 = with_edge(g, from, to, w);
    assert forall|e: (u64, u64)| #[trigger] edge_set(g1).contains(e) <==> edge_set(g).insert((from, to)).contains(e) by {
        if e != (from, to) {
            lemma_add_edge_keeps_others(g, from, to, w, e.0, e.1);
        }
    }
    assert(edge_set(g1) =~= edge_set(g).insert((from, to)));
}

/// The pairs `(a, b)` with `b < m` and `b != a`.
spec fn row_pairs(n: u64, a: u64, m: u64) -> Set<(u64, u64)> {
    Set::new(|e: (u64, u64)| e.0 == a && e.1 < m && e.1 != a)
}

proof fn lemma_row_pairs(n: u64, a: u64, m: u64)
    ensures
        row_pairs(n, a, m).finite(),
        row_pairs(n, a, m).len() == if a < m {
            m - 1
        } else {
            m as int
        },
    decreases m,
{
    if m == 0 {
        assert(row_pairs(n, a, m) =~= Set::empty());
    } else {
        let k = (m - 1) as u64;
        lemma_row_pairs(n, a, k);
        if k == a {
            assert(row_pairs(n, a, m) =~= row_pairs(n, a, k));
        } else {
            assert(row_pairs(n, a, m) =~= row_pairs(n, a, k).insert((a, k)));
            assert(!row_pairs(n, a, k).contains((a, k)));
        }
    }
}

/// The pairs of two different vertices whose first vertex is below `k`.
spec fn pairs_from(n: u64, k: u64) -> Set<(u64, u64)> {
    Set::new(|e: (u64, u64)| e.0 < k && e.1 < n && e.0 != e.1)
}

proof fn lemma_pairs_from(n: u64, k: u64)
    requires
        k <= n,
    ensures
        pairs_from(n, k).finite(),
        pairs_from(n, k).len() == k * (n - 1),
    decreases k,
{
    if k == 0 {
        assert(pairs_from(n, k) =~= Set::empty());
    } else {
        let j = (k - 1) as u64;
        lemma_pairs_from(n, j);
        lemma_row_pairs(n, j, n);
        let row = row_pairs(n, j, n);
        assert(pairs_from(n, k) =~= pairs_from(n, j) + row);
        assert(pairs_from(n, j).disjoint(row));
        vstd::set_lib::lemma_set_disjoint_lens(pairs_from(n, j), row);
        assert(j * (n - 1) + (n - 1) == k * (n - 1)) by (nonlinear_arith)
            requires
                j + 1 == k,
        ;
    }
}

/// There are `n * (n - 1)` pairs of two different vertices below `n`.
pub proof fn lemma_vertex_pairs_count(n: u64)
    ensures
        vertex_pairs(n).finite(),
        vertex_pairs(n).len() == n * (n - 1),
{
    lemma_pairs_from(n, n);
    assert(vertex_pairs(n) =~= pairs_from(n, n));
}

/// A graph whose edges are pairs of two different vertices below `n` has room
/// for another such edge exactly when it has fewer than `n * (n - 1)` edges.
pub proof fn lemma_room_iff_fewer_edges(g: EdgeMap, n: u64)
    requires
        edge_set(g).subset_of(vertex_pairs(n)),
    ensures
        edge_set(g).finite(),
        edge_count(g) <= n * (n - 1),
        has_room(g, n) <==> edge_count(g) < n * (n - 1),
{
    lemma_vertex_pairs_count(n);
    vstd::set_lib::lemma_len_subset(edge_set(g), vertex_pairs(n));
    if has_room(g, n) {
        let (f, t) = choose|f: u64, t: u64| f < n && t < n && f != t && !#[trigger] has_edge(g, f, t);
        assert(edge_set(g).subset_of(vertex_pairs(n).remove((f, t))));
        vstd::set_lib::lemma_len_subset(edge_set(g), vertex_pairs(n).remove((f, t)));
    } else {
        assert(vertex_pairs(n).subset_of(edge_set(g))) by {
            assert forall|e: (u64, u64)| #[trigger] vertex_pairs(n).contains(e) implies edge_set(g).contains(e) by {
                if !has_edge(g, e.0, e.1) {
                    assert(has_room(g, n));
                }
            }
        }
        vstd::set_lib::lemma_len_subset(vertex_pairs(n), edge_set(g));
    }
}

/// One input that the construction was given.
pub enum BuildInput {
    /// The draw and the weight for a tree edge.
    Tree { draw: u64, weight: u64 },
    /// The pair of draws for a further edge.
    Pair { from_draw: u64, to_draw: u64 },
    /// The weight of a further edge.
    Weight { weight: u64 },
}

/// The state of a construction as its inputs determine it.
pub struct BuildState {
    pub graph: EdgeMap,
    pub next_vertex: u64,
    pub added: nat,
    pub awaiting: Option<(u64, u64)>,
}

/// The state before any input: the vertices `0..n`, no edges.
pub open spec fn start_state(n: u64) -> BuildState {
    BuildState {
        graph: Map::new(|v: u64| v < n, |v: u64| Map::<u64, u64>::empty()),
        next_vertex: 1,
        added: 0,
        awaiting: None,
    }
}

/// The state after input `e` in state `s`, for a graph on `n` vertices: a tree
/// draw attaches the next vertex `i` below `draw % i`; a pair of draws names the
/// edge `from_draw % n -> to_draw % n`, which is awaited when it is new and no
/// loop; a weight adds the awaited edge.
pub open spec fn apply_input(s: BuildState, n: u64, e: BuildInput) -> BuildState {
    match e {
        BuildInput::Tree { draw, weight } => BuildState {
            graph: with_edge(s.graph, draw % s.next_vertex, s.next_vertex, weight),
            next_vertex: (s.next_vertex + 1) as u64,
            ..s
        },
        BuildInput::Pair { from_draw, to_draw } => {
            let f = from_draw % n;
            let t = to_draw % n;
            if f != t && !has_edge(s.graph, f, t) {
                BuildState { awaiting: Some((f, t)), ..s }
            } else {
                s
            }
        },
        BuildInput::Weight { weight } => match s.awaiting {
            Some((f, t)) => BuildState {
                graph: with_edge(s.graph, f, t, weight),
                added: s.added + 1,
                awaiting: None,
                ..s
            },
            None => s,
        },
    }
}

/// The state after the inputs `inputs`, in order, for a graph on `n` vertices.
pub open spec fn replay(n: u64, inputs: Seq<BuildInput>) -> BuildState
    decreases inputs.len(),
{
    if inputs.len() == 0 {
        start_state(n)
    } else {
        apply_input(replay(n, inputs.drop_last()), n, inputs.last())
    }
}

/// The state after the inputs `inputs` followed by `e`.
proof fn lemma_replay_push(n: u64, inputs: Seq<BuildInput>, e: BuildInput)
    ensures
        replay(n, inputs.push(e)) == apply_input(replay(n, inputs), n, e),
{
    assert(inputs.push(e).drop_last() =~= inputs);
}

/// The state of a random connected graph under construction.
pub struct RandomGraphBuilder {
    graph: Graph,
    num_vertices: u64,
    additional_edges: usize,
    next_vertex: u64,
    edges_added: usize,
    edges: u128,
    pending: Option<(u64, u64)>,
    inputs: Ghost<Seq<BuildInput>>,
}

impl RandomGraphBuilder {
    /// The graph built so far.
    pub closed spec fn graph_view(&self) -> EdgeMap {
        self.graph@
    }

    /// The number of vertices.
    pub closed spec fn vertex_count(&self) -> u64 {
        self.num_vertices
    }

    /// The number of further edges asked for.
    pub closed spec fn wanted(&self) -> usize {
        self.additional_edges
    }

    /// The number of further edges added so far.
    pub closed spec fn added(&self) -> usize {
        self.edges_added
    }

    /// The next vertex of the spanning tree to attach.
    pub closed spec fn next_tree_vertex(&self) -> u64 {
        self.next_vertex
    }

    /// The further edge whose weight is awaited, if any.
    pub closed spec fn awaiting(&self) -> Option<(u64, u64)> {
        self.pending
    }

    /// The inputs given so far, in order.
    pub closed spec fn inputs(&self) -> Seq<BuildInput> {
        self.inputs@
    }

    /// The state of the construction.
    pub open spec fn state(&self) -> BuildState {
        BuildState {
            graph: self.graph_view(),
            next_vertex: self.next_tree_vertex(),
            added: self.added() as nat,
            awaiting: self.awaiting(),
        }
    }

    /// What the construction needs next: the tree edges first, then further
    /// edges while fewer than asked for are there and one can still be added.
    pub open spec fn step(&self) -> Step {
        if self.next_tree_vertex() < self.vertex_count() {
            Step::TreeEdge { vertex: self.next_tree_vertex() }
        } else if self.awaiting() is Some {
            Step::ExtraWeight
        } else if self.added() < self.wanted() && has_room(self.graph_view(), self.vertex_count()) {
            Step::ExtraPair
        } else {
            Step::Done
        }
    }

    /// The invariant of the construction.
    pub closed spec fn wf(&self) -> bool {
        &&& vertices_below(self.graph@, self.num_vertices)
        &&& 1 <= self.next_vertex
        &&& (self.num_vertices >= 1 ==> self.next_vertex <= self.num_vertices)
        &&& tree_below(self.graph@, self.next_vertex)
        &&& edge_set(self.graph@).subset_of(vertex_pairs(self.num_vertices))
        &&& forall|a: u64, b: u64| #[trigger] has_edge(self.graph@, a, b) ==> b < self.next_vertex
        &&& self.edges == edge_count(self.graph@)
        &&& self.edges == (self.next_vertex - 1) + self.edges_added
        &&& self.edges_added <= self.additional_edges
        &&& (self.pending is Some ==> self.next_vertex >= self.num_vertices)
        &&& (self.pending is Some ==> self.edges_added < self.additional_edges)
        &&& (self.pending matches Some((f, t)) ==> f != t && f < self.num_vertices && t
            < self.num_vertices && !has_edge(self.graph@, f, t))
        &&& self.state() == replay(self.num_vertices, self.inputs@)
    }

    /// Starts a graph with the vertices `0..num_vertices` and no edges, to which
    /// `additional_edges` further edges are to be added after the spanning tree.
    pub fn new(num_vertices: u64, additional_edges: usize) -> (b: Self)
        ensures
            b.wf(),
            b.graph_view() == Map::new(|v: u64| v < num_vertices, |v: u64| Map::<u64, u64>::empty()),
            b.vertex_count() == num_vertices,
            b.wanted() == additional_edges,
            b.added() == 0,
            b.next_tree_vertex() == 1,
            b.awaiting() is None,
            b.inputs() == Seq::<BuildInput>::empty(),
    {
        let mut graph = Graph::new();
        for i in 0..num_vertices
            invariant
                graph@ == Map::new(|v: u64| v < i, |v: u64| Map::<u64, u64>::empty()),
        {
            graph.add_vertex(i);
            assert(graph@ =~= Map::new(|v: u64| v < i + 1, |v: u64| Map::<u64, u64>::empty()));
        }
        assert(edge_set(graph@) =~= Set::empty());
        RandomGraphBuilder {
            graph,
            num_vertices,
            additional_edges,
            next_vertex: 1,
            edges_added: 0,
            edges: 0,
            pending: None,
            inputs: Ghost(Seq::empty()),
        }
    }

    /// Whether some edge between two different vertices is still missing.
    fn room_left(&self) -> (r: bool)
        requires
            self.wf(),
        ensures
            r == has_room(self.graph_view(), self.vertex_count()),
    {
        proof {
            lemma_room_iff_fewer_edges(self.graph@, self.num_vertices);
        }
        if self.num_vertices == 0 {
            false
        } else {
            let n = self.num_vertices as u128;
            assert(n * (n - 1) <= 0xffff_ffff_ffff_ffff_ffff_ffff_ffff_ffff) by (nonlinear_arith)
                requires
                    1 <= n <= 0xffff_ffff_ffff_ffff,
            ;
            self.edges < n * (n - 1)
        }
    }

    /// What the construction needs next.
    pub fn next_step(&self) -> (s: Step)
        requires
            self.wf(),
        ensures
            s == self.step(),
    {
        if self.next_vertex < self.num_vertices {
            Step::TreeEdge { vertex: self.next_vertex }
        } else if self.pending.is_some() {
            Step::ExtraWeight
        } else if self.edges_added < self.additional_edges && self.room_left() {
            Step::ExtraPair
        } else {
            Step::Done
        }
    }

    /// Attaches the next tree vertex `i` below vertex `draw % i` with an edge of
    /// weight `weight`.
    pub fn add_tree_edge(&mut self, draw: u64, weight: u64)
        requires
            old(self).wf(),
            old(self).step() is TreeEdge,
        ensures
            final(self).wf(),
            final(self).graph_view() == with_edge(
                old(self).graph_view(),
                draw % old(self).next_tree_vertex(),
                old(self).next_tree_vertex(),
                weight,
            ),
            final(self).next_tree_vertex() == old(self).next_tree_vertex() + 1,
            final(self).vertex_count() == old(self).vertex_count(),
            final(self).wanted() == old(self).wanted(),
            final(self).added() == old(self).added(),
            final(self).awaiting() == old(self).awaiting(),
            final(self).inputs() == old(self).inputs().push(BuildInput::Tree { draw, weight }),
    {
        proof {
            lemma_replay_push(self.num_vertices, self.inputs@, BuildInput::Tree { draw, weight });
        }
        self.inputs = Ghost(self.inputs@.push(BuildInput::Tree { draw, weight }));
        let i = self.next_vertex;
        let parent = draw % i;
        let ghost g0 = self.graph@;
        self.graph.add_edge(parent, i, weight);
        self.next_vertex = i + 1;
        proof {
            let g1 = self.graph@;
            lemma_edge_set_insert(g0, parent, i, weight);
            assert(!edge_set(g0).contains((parent, i))) by {
                if has_edge(g0, parent, i) {
                    assert(i < i);
                }
            }
            lemma_room_iff_fewer_edges(g0, self.num_vertices);
        }
        self.edges = self.edges + 1;
        proof {
            let g1 = self.graph@;
            assert(g0.contains_key(parent) && g0.contains_key(i));
            assert forall|v: u64| #[trigger] g1.contains_key(v) <==> v < self.num_vertices by {
                assert(g0.contains_key(v) <==> v < self.num_vertices);
            }
            assert forall|v: u64| 1 <= v < i + 1 implies #[trigger] has_parent(g1, v) by {
                if v == i {
                    assert(has_edge(g1, parent, i));
                } else {
                    assert(has_parent(g0, v));
                    let p = choose|p: u64| p < v && #[trigger] has_edge(g0, p, v);
                    lemma_edges_kept(g0, parent, i, weight, p, v);
                }
            }
            assert forall|a: u64, b: u64| #[trigger] has_edge(g1, a, b) implies b < i + 1 by {
                if a != parent || b != i {
                    lemma_add_edge_keeps_others(g0, parent, i, weight, a, b);
                    assert(has_edge(g0, a, b));
                }
            }
            assert forall|e: (u64, u64)| #[trigger] edge_set(g1).contains(e) implies vertex_pairs(self.num_vertices).contains(e) by {
                if e != (parent, i) {
                    assert(edge_set(g0).contains(e));
                }
            }
            assert(edge_set(g0).finite());
        }
    }

    /// Tries the further edge `draw_from % n -> draw_to % n`: it is taken, and its
    /// weight awaited, when its endpoints differ and the graph has no such edge
    /// yet; otherwise nothing changes and the next pair of draws is asked for.
    pub fn propose_extra_edge(&mut self, draw_from: u64, draw_to: u64) -> (taken: bool)
        requires
            old(self).wf(),
            old(self).step() is ExtraPair,
        ensures
            final(self).wf(),
            ({
                let n = old(self).vertex_count();
                let from = draw_from % n;
                let to = draw_to % n;
                taken == (from != to && !has_edge(old(self).graph_view(), from, to))
            }),
            taken ==> final(self).awaiting() == Some(
                (draw_from % old(self).vertex_count(), draw_to % old(self).vertex_count()),
            ),
            !taken ==> final(self).awaiting() is None,
            final(self).graph_view() == old(self).graph_view(),
            final(self).next_tree_vertex() == old(self).next_tree_vertex(),
            final(self).vertex_count() == old(self).vertex_count(),
            final(self).wanted() == old(self).wanted(),
            final(self).added() == old(self).added(),
            final(self).inputs() == old(self).inputs().push(BuildInput::Pair { from_draw: draw_from, to_draw: draw_to }),
    {
        proof {
            lemma_replay_push(self.num_vertices, self.inputs@, BuildInput::Pair { from_draw: draw_from, to_draw: draw_to });
        }
        self.inputs = Ghost(self.inputs@.push(BuildInput::Pair { from_draw: draw_from, to_draw: draw_to }));
        let n = self.num_vertices;
        let from = draw_from % n;
        let to = draw_to % n;
        if from != to && self.graph.get_edge_weight(from, to).is_none() {
            self.pending = Some((from, to));
            true
        } else {
            false
        }
    }

    /// Adds the further edge that was taken, with weight `weight`.
    pub fn add_extra_edge(&mut self, weight: u64)
        requires
            old(self).wf(),
            old(self).step() is ExtraWeight,
        ensures
            final(self).wf(),
            old(self).awaiting() matches Some((f, t)) && final(self).graph_view() == with_edge(
                old(self).graph_view(),
                f,
                t,
                weight,
            ),
            final(self).added() == old(self).added() + 1,
            final(self).awaiting() is None,
            final(self).next_tree_vertex() == old(self).next_tree_vertex(),
            final(self).vertex_count() == old(self).vertex_count(),
            final(self).wanted() == old(self).wanted(),
            final(self).inputs() == old(self).inputs().push(BuildInput::Weight { weight }),
    {
        proof {
            lemma_replay_push(self.num_vertices, self.inputs@, BuildInput::Weight { weight });
        }
        self.inputs = Ghost(self.inputs@.push(BuildInput::Weight { weight }));
        let (from, to) = match self.pending {
            Some(p) => p,
            None => (0, 0),
        };
        let ghost g0 = self.graph@;
        self.graph.add_edge(from, to, weight);
        proof {
            lemma_edge_set_insert(g0, from, to, weight);
            lemma_room_iff_fewer_edges(g0, self.num_vertices);
        }
        self.edges = self.edges + 1;
        self.edges_added = self.edges_added + 1;
        self.pending = None;
        proof {
            let g1 = self.graph@;
            assert(g0.contains_key(from) && g0.contains_key(to));
            assert forall|v: u64| #[trigger] g1.contains_key(v) <==> v < self.num_vertices by {
                assert(g0.contains_key(v) <==> v < self.num_vertices);
            }
            assert forall|v: u64| 1 <= v < self.next_vertex implies #[trigger] has_parent(g1, v) by {
                assert(has_parent(g0, v));
                let p = choose|p: u64| p < v && #[trigger] has_edge(g0, p, v);
                lemma_edges_kept(g0, from, to, weight, p, v);
            }
            assert forall|a: u64, b: u64| #[trigger] has_edge(g1, a, b) implies b < self.next_vertex by {
                if a != from || b != to {
                    lemma_add_edge_keeps_others(g0, from, to, weight, a, b);
                    assert(has_edge(g0, a, b));
                }
            }
            assert forall|e: (u64, u64)| #[trigger] edge_set(g1).contains(e) implies vertex_pairs(self.num_vertices).contains(e) by {
                if e != (from, to) {
                    assert(edge_set(g0).contains(e));
                }
            }
        }
    }

    /// The finished graph: its vertices are exactly `0..n`, vertex `0` reaches
    /// every one of them, and it has the `n - 1` edges of the spanning tree and
    /// every further edge asked for, or as many as there is room for.
    pub fn finish(self) -> (g: Graph)
        requires
            self.wf(),
            self.step() is Done,
        ensures
            g@ == self.graph_view(),
            vertices_below(g@, self.vertex_count()),
            tree_below(g@, self.vertex_count()),
            forall|v: u64| v < self.vertex_count() ==> #[trigger] reaches(g@, 0, v),
            edge_count(g@) == tree_edge_count(self.vertex_count()) + self.added(),
            self.added() <= self.wanted(),
            self.added() == self.wanted() || !has_room(g@, self.vertex_count()),
            self.wanted() <= tree_edge_count(self.vertex_count()) * tree_edge_count(self.vertex_count())
                ==> self.added() == self.wanted(),
            forall|a: u64, b: u64| #[trigger] has_edge(g@, a, b) ==> a != b,
            g@ == replay(self.vertex_count(), self.inputs()).graph,
    {
        proof {
            let n = self.num_vertices;
            assert forall|v: u64| v < n implies #[trigger] reaches(self.graph@, 0, v) by {
                lemma_tree_connects(self.graph@, n, v);
            }
            lemma_room_iff_fewer_edges(self.graph@, n);
            if n == 0 {
                assert(n * (n - 1) == 0) by (nonlinear_arith)
                    requires
                        n == 0,
                ;
                assert(edge_count(self.graph@) <= 0);
                assert(self.edges_added == 0);
            } else {
                assert(self.next_vertex == n);
                assert(tree_edge_count(n) == n - 1);
                if self.edges_added < self.additional_edges {
                    assert(!has_room(self.graph@, n));
                    assert(self.edges == n * (n - 1));
                    assert((n - 1) + (n - 1) * (n - 1) == n * (n - 1)) by (nonlinear_arith);
                }
            }
            assert forall|a: u64, b: u64| #[trigger] has_edge(self.graph@, a, b) implies a != b by {
                assert(edge_set(self.graph@).contains((a, b)));
            }
        }
        self.graph
    }
}

/// The graph is determined by the number of vertices and the inputs given: two
/// constructions on as many vertices that were given the same inputs, in the
/// same order, hold the same graph (so one seed of the generator that draws the
/// inputs always gives one graph).
pub proof fn lemma_same_inputs_same_graph(a: RandomGraphBuilder, b: RandomGraphBuilder)
    requires
        a.wf(),
        b.wf(),
        a.vertex_count() == b.vertex_count(),
        a.inputs() == b.inputs(),
    ensures
        a.graph_view() == b.graph_view(),
        a.state() == b.state(),
{
}

} // verus!
