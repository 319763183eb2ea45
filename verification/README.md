# graph_challenge

Weighted directed graphs and the support of their shortest-path searches, with
the data structures and their rules verified by Verus.

`src/` (verified):
- `graph` — a graph as a map from vertex to a map of out-edges; its abstract
  value is a `Map<u64, Map<u64, u64>>`, and the laws of its operations are
  proved there. `graph::worker` holds the per-vertex cells shared by the
  threads of the parallel search.
- `graph_vec` — the same abstract graph, each vertex's out-edges kept in a
  vector sorted by target and found by binary search.
- `graph_memmap` — the little-endian file format of a read-mostly graph, read
  and edited in place through a memory map.
- `path` — reading a path back out of a predecessor table; the tables that
  the searches fill record only edges of the graph, so the path read back is
  a walk of the graph.
- `random_graph` — the construction of a random connected graph, step by step,
  with the proof that the result is connected and has every further edge
  asked for (as many as there is room for).
- `atomic` — a flag lock, a counting guard and a flag-based mutex.

The graphs use `std::collections::HashMap` with its default hasher: Verus
specifies a hash map only for hashers it knows, so a map with the
`nohash_hasher` hasher would rest on an unproved assumption. The stored form
in `app/` keeps `nohash_hasher::IntMap`, which serialises the same way.

Edge weights and costs are IEEE-754 doubles; the verified code carries them as
their 64-bit patterns and never computes with them.

`app/` (ordinary Rust): the `f64` view of the weights, Dijkstra's and the
multi-threaded searches, spin-waiting for the locks, file storage (bincode and
memory maps), the random draws, and the generic delta-stepping search.
