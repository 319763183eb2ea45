//! A read-mostly graph stored in a memory-mapped file.
//!
//! The file holds, all numbers as little-endian 64-bit words:
//! - at byte 0, the number of vertices `n`;
//! - from byte 8, `n` vertex records of 24 bytes, sorted by vertex id:
//!   the vertex id, its number of out-edges, and the byte offset of its edges;
//! - at each such offset, the out-edges of that vertex, 16 bytes each and sorted
//!   by target: the target vertex id and the bit pattern of the IEEE-754 double
//!   weight.
//!
//! The functions on byte slices below read and edit this format; [`Graph`] applies
//! them to the bytes of a memory map.

mod mapping;

use memmap2::MmapMut;
use mapping::{mapped_bytes, mapped_bytes_mut, Mapping};
use vstd::bytes::{spec_u64_from_le_bytes, spec_u64_to_le_bytes, u64_from_le_bytes, u64_to_le_bytes};
use vstd::prelude::*;
use vstd::slice::slice_subrange;

verus! {

/// `memmap2::MmapMut`, a writable memory map.
#[verifier::external_type_specification]
#[verifier::external_body]
pub struct ExMmapMut(MmapMut);

/// Why a graph file cannot answer a query.
#[derive(Clone, Copy, Debug, PartialEq, Eq, Structural)]
pub enum MemmapError {
    /// The header, the vertex table or the edges of the vertex asked for reach
    /// past the end of the file.
    Truncated,
    /// No vertex record has the id asked for.
    VertexNotFound,
}

/// The little-endian word at byte `at` of `b`.
pub open spec fn word_at(b: Seq<u8>, at: int) -> u64 {
    spec_u64_from_le_bytes(b.subrange(at, at + 8))
}

/// The number of vertices that the header states.
pub open spec fn vertex_count(b: Seq<u8>) -> int {
    word_at(b, 0) as int
}

/// The byte where vertex record `i` starts.
pub open spec fn record_start(i: int) -> int {
    8 + 24 * i
}

/// The header and the whole vertex table lie inside the file.
pub open spec fn table_fits(b: Seq<u8>) -> bool {
    b.len() >= 8 && record_start(vertex_count(b)) <= b.len()
}

/// The id in vertex record `i`.
pub open spec fn record_id(b: Seq<u8>, i: int) -> u64 {
    word_at(b, record_start(i))
}

/// The number of out-edges in vertex record `i`.
pub open spec fn record_degree(b: Seq<u8>, i: int) -> int {
    word_at(b, record_start(i) + 8) as int
}

/// The offset of the out-edges in vertex record `i`.
pub open spec fn record_offset(b: Seq<u8>, i: int) -> int {
    word_at(b, record_start(i) + 16) as int
}

/// The vertex records are in strictly increasing order of id.
pub open spec fn ids_sorted(b: Seq<u8>) -> bool {
    forall|i: int, j: int|
        0 <= i < j < vertex_count(b) ==> #[trigger] record_id(b, i) < #[trigger] record_id(b, j)
}

/// Some vertex record has id `v`.
pub open spec fn has_vertex(b: Seq<u8>, v: u64) -> bool {
    exists|i: int| 0 <= i < vertex_count(b) && #[trigger] record_id(b, i) == v
}

/// The out-edges of vertex record `i` lie inside the file.
pub open spec fn row_fits(b: Seq<u8>, i: int) -> bool {
    record_offset(b, i) + 16 * record_degree(b, i) <= b.len()
}

/// The byte where out-edge `j` of vertex record `i` starts.
pub open spec fn edge_start(b: Seq<u8>, i: int, j: int) -> int {
    record_offset(b, i) + 16 * j
}

/// The target of out-edge `j` of vertex record `i`.
pub open spec fn edge_target(b: Seq<u8>, i: int, j: int) -> u64 {
    word_at(b, edge_start(b, i, j))
}

/// The weight bits of out-edge `j` of vertex record `i`.
pub open spec fn edge_cost(b: Seq<u8>, i: int, j: int) -> u64 {
    word_at(b, edge_start(b, i, j) + 8)
}

/// The out-edges of vertex record `i` are in strictly increasing order of target.
pub open spec fn row_sorted(b: Seq<u8>, i: int) -> bool {
    forall|j: int, k: int|
        0 <= j < k < record_degree(b, i) ==> #[trigger] edge_target(b, i, j) < #[trigger] edge_target(
            b,
            i,
            k,
        )
}

/// Some out-edge of vertex record `i` goes to `t`.
pub open spec fn row_has(b: Seq<u8>, i: int, t: u64) -> bool {
    exists|j: int| 0 <= j < record_degree(b, i) && #[trigger] edge_target(b, i, j) == t
}

/// The ids of all vertex records, in file order.
pub open spec fn record_ids(b: Seq<u8>) -> Seq<u64> {
    Seq::new(vertex_count(b) as nat, |i: int| record_id(b, i))
}

/// The out-edges `(target, weight bits)` of vertex record `i`, in file order.
pub open spec fn row_edges(b: Seq<u8>, i: int) -> Seq<(u64, u64)> {
    Seq::new(record_degree(b, i) as nat, |j: int| (edge_target(b, i, j), edge_cost(b, i, j)))
}

/// Every vertex record and every row of out-edges is sorted, as the format asks.
pub open spec fn file_sorted(b: Seq<u8>) -> bool {
    &&& ids_sorted(b)
    &&& forall|i: int| 0 <= i < vertex_count(b) ==> #[trigger] row_sorted(b, i)
}

/// The index of the vertex record with id `v` (meaningful when there is one).
pub open spec fn vertex_index(b: Seq<u8>, v: u64) -> int {
    choose|i: int| 0 <= i < vertex_count(b) && #[trigger] record_id(b, i) == v
}

/// The index of the out-edge to `t` of vertex record `i` (meaningful when there is one).
pub open spec fn edge_index(b: Seq<u8>, i: int, t: u64) -> int {
    choose|j: int| 0 <= j < record_degree(b, i) && #[trigger] edge_target(b, i, j) == t
}

/// Where the out-edges of vertex `v` are: the record index, or why there is none.
pub open spec fn locate_row(b: Seq<u8>, v: u64) -> Result<int, MemmapError> {
    if !table_fits(b) {
        Err(MemmapError::Truncated)
    } else if !has_vertex(b, v) {
        Err(MemmapError::VertexNotFound)
    } else if !row_fits(b, vertex_index(b, v)) {
        Err(MemmapError::Truncated)
    } else {
        Ok(vertex_index(b, v))
    }
}

/// The out-edges of vertex `v` in a well-formed file.
pub open spec fn lookup_neighbors(b: Seq<u8>, v: u64) -> Result<Seq<(u64, u64)>, MemmapError> {
    match locate_row(b, v) {
        Ok(i) => Ok(row_edges(b, i)),
        Err(e) => Err(e),
    }
}

/// The weight bits of the edge `from -> to` in a well-formed file.
pub open spec fn lookup_weight(b: Seq<u8>, from: u64, to: u64) -> Result<Option<u64>, MemmapError> {
    match locate_row(b, from) {
        Ok(i) => if row_has(b, i, to) {
            Ok(Some(edge_cost(b, i, edge_index(b, i, to))))
        } else {
            Ok(None)
        },
        Err(e) => Err(e),
    }
}

/// `b` with the little-endian word `x` written at byte `at`.
pub open spec fn with_word(b: Seq<u8>, at: int, x: u64) -> Seq<u8> {
    b.take(at) + spec_u64_to_le_bytes(x) + b.skip(at + 8)
}

/// The file after setting the weight of the edge `from -> to` to `cost`
/// (unchanged when there is no such edge).
pub open spec fn set_weight_result(b: Seq<u8>, from: u64, to: u64, cost: u64) -> Seq<u8> {
    match locate_row(b, from) {
        Ok(i) => if row_has(b, i, to) {
            with_word(b, edge_start(b, i, edge_index(b, i, to)) + 8, cost)
        } else {
            b
        },
        Err(_) => b,
    }
}

/// What [`vertices_in`] answers for file `b`.
pub open spec fn vertices_answer(b: Seq<u8>, res: Result<Vec<u64>, MemmapError>) -> bool {
    match res {
        Ok(ids) => table_fits(b) && ids@ == record_ids(b),
        Err(e) => !table_fits(b) && e == MemmapError::Truncated,
    }
}

/// What [`neighbors_in`] answers for vertex `v` of file `b`: exactly
/// [`lookup_neighbors`] in a well-formed file; in any file, the edges of some
/// record with id `v` when it succeeds.
pub open spec fn neighbors_answer(b: Seq<u8>, v: u64, res: Result<Vec<(u64, u64)>, MemmapError>) -> bool {
    &&& file_sorted(b) ==> match res {
        Ok(edges) => lookup_neighbors(b, v) == Ok::<Seq<(u64, u64)>, MemmapError>(edges@),
        Err(e) => lookup_neighbors(b, v) == Err::<Seq<(u64, u64)>, MemmapError>(e),
    }
    &&& !table_fits(b) ==> res == Err::<Vec<(u64, u64)>, MemmapError>(MemmapError::Truncated)
    &&& res matches Ok(edges) ==> exists|i: int|
        0 <= i < vertex_count(b) && #[trigger] record_id(b, i) == v && edges@ == row_edges(b, i)
}

/// What [`edge_weight_in`] answers for the edge `from -> to` of file `b`: exactly
/// [`lookup_weight`] in a well-formed file; in any file, the weight of some such
/// edge when it finds one.
pub open spec fn weight_answer(b: Seq<u8>, from: u64, to: u64, res: Result<Option<u64>, MemmapError>) -> bool {
    &&& file_sorted(b) ==> res == lookup_weight(b, from, to)
    &&& !table_fits(b) ==> res == Err::<Option<u64>, MemmapError>(MemmapError::Truncated)
    &&& res matches Ok(Some(c)) ==> exists|i: int, j: int|
        0 <= i < vertex_count(b) && 0 <= j < record_degree(b, i) && #[trigger] record_id(b, i) == from
            && #[trigger] edge_target(b, i, j) == to && c == edge_cost(b, i, j)
}

/// What [`set_edge_weight_in`] does to file `b0`, giving `b1`, and answers.
pub open spec fn set_answer(b0: Seq<u8>, b1: Seq<u8>, from: u64, to: u64, cost: u64, res: Result<bool, MemmapError>) -> bool {
    &&& file_sorted(b0) ==> match res {
        Ok(found) => lookup_weight(b0, from, to) matches Ok(w) && found == w is Some,
        Err(e) => lookup_weight(b0, from, to) == Err::<Option<u64>, MemmapError>(e),
    }
    &&& file_sorted(b0) ==> b1 == set_weight_result(b0, from, to, cost)
    &&& !table_fits(b0) ==> res == Err::<bool, MemmapError>(MemmapError::Truncated)
    &&& !(res matches Ok(true)) ==> b1 == b0
    &&& res matches Ok(true) ==> exists|i: int, j: int|
        0 <= i < vertex_count(b0) && 0 <= j < record_degree(b0, i) && #[trigger] record_id(b0, i) == from
            && #[trigger] edge_target(b0, i, j) == to && b1 == with_word(b0, edge_start(b0, i, j) + 8, cost)
}

/// In a file with sorted records, a record with id `v` is the one `vertex_index` names.
proof fn lemma_vertex_index_unique(b: Seq<u8>, v: u64, i: int)
    requires
        ids_sorted(b),
        0 <= i < vertex_count(b),
        record_id(b, i) == v,
    ensures
        vertex_index(b, v) == i,
{
    assert(has_vertex(b, v));
    let k = vertex_index(b, v);
    if k < i {
        assert(record_id(b, k) < record_id(b, i));
    } else if k > i {
        assert(record_id(b, i) < record_id(b, k));
    }
}

/// In a sorted row, an out-edge to `t` is the one `edge_index` names.
proof fn lemma_edge_index_unique(b: Seq<u8>, i: int, t: u64, j: int)
    requires
        row_sorted(b, i),
        0 <= j < record_degree(b, i),
        edge_target(b, i, j) == t,
    ensures
        edge_index(b, i, t) == j,
{
    assert(row_has(b, i, t));
    let k = edge_index(b, i, t);
    if k < j {
        assert(edge_target(b, i, k) < edge_target(b, i, j));
    } else if k > j {
        assert(edge_target(b, i, j) < edge_target(b, i, k));
    }
}

proof fn lemma_mul_le(a: int, b: int, k: int)
    requires
        0 <= a <= b,
        0 <= k,
    ensures
        k * a <= k * b,
{
    assert(k * a <= k * b) by (nonlinear_arith)
        requires
            0 <= a <= b,
            0 <= k,
    ;
}

proof fn lemma_quotient_bound(q: int, c: int, k: int)
    requires
        k > 0,
        c >= 0,
        q >= 0,
    ensures
        (q <= c / k) <==> (k * q <= c),
{
    assert((q <= c / k) <==> (k * q <= c)) by (nonlinear_arith)
        requires
            k > 0,
            c >= 0,
            q >= 0,
    ;
}

/// Reads the little-endian word at byte `at`.
fn read_word(b: &[u8], at: usize) -> (x: u64)
    requires
        at + 8 <= b@.len(),
    ensures
        x == word_at(b@, at as int),
{
    let _len = b.len();
    let part = slice_subrange(b, at, at + 8);
    u64_from_le_bytes(part)
}

/// Writes `x` as a little-endian word at byte `at`.
fn write_word(b: &mut [u8], at: usize, x: u64)
    requires
        at + 8 <= old(b)@.len(),
    ensures
        final(b)@.len() == old(b)@.len(),
        final(b)@.subrange(at as int, at + 8) == spec_u64_to_le_bytes(x),
        forall|k: int| 0 <= k < old(b)@.len() && !(at <= k < at + 8) ==> #[trigger] final(b)@[k] == old(
            b,
        )@[k],
{
    let bytes = u64_to_le_bytes(x);
    let len = b.len();
    let mut k: usize = 0;
    while k < 8
        invariant
            0 <= k <= 8,
            len == b@.len(),
            at + 8 <= b@.len(),
            b@.len() == old(b)@.len(),
            bytes@ == spec_u64_to_le_bytes(x),
            bytes@.len() == 8,
            forall|m: int| 0 <= m < k ==> #[trigger] b@[at + m] == bytes@[m],
            forall|m: int| 0 <= m < old(b)@.len() && !(at <= m < at + k) ==> #[trigger] b@[m] == old(
                b,
            )@[m],
        decreases 8 - k,
    {
        b[at + k] = bytes[k];
        k = k + 1;
    }
    assert forall|m: int| 0 <= m < 8 implies #[trigger] b@.subrange(at as int, at + 8)[m] == bytes@[m] by {
        assert(b@[at + m] == bytes@[m]);
    }
    assert(b@.subrange(at as int, at + 8) =~= bytes@);
}

/// The number of vertices, once the header and the vertex table are known to fit.
fn checked_vertex_count(b: &[u8]) -> (res: Result<usize, MemmapError>)
    ensures
        match res {
            Ok(n) => table_fits(b@) && n == vertex_count(b@),
            Err(e) => !table_fits(b@) && e == MemmapError::Truncated,
        },
{
    let len = b.len();
    if len < 8 {
        return Err(MemmapError::Truncated);
    }
    let n = read_word(b, 0);
    let room = (len - 8) / 24;
    proof {
        lemma_quotient_bound(n as int, len - 8, 24);
    }
    if n > room as u64 {
        Err(MemmapError::Truncated)
    } else {
        Ok(n as usize)
    }
}

/// The index of the vertex record with id `v`, found by binary search.
fn find_vertex(b: &[u8], n: usize, v: u64) -> (res: Option<usize>)
    requires
        table_fits(b@),
        n == vertex_count(b@),
    ensures
        res matches Some(i) ==> i < n && record_id(b@, i as int) == v,
        res is None && ids_sorted(b@) ==> !has_vertex(b@, v),
{
    let len = b.len();
    let mut lo: usize = 0;
    let mut hi: usize = n;
    while lo < hi
        invariant
            0 <= lo <= hi <= n,
            len == b@.len(),
            table_fits(b@),
            n == vertex_count(b@),
            ids_sorted(b@) ==> forall|j: int| 0 <= j < lo ==> #[trigger] record_id(b@, j) < v,
            ids_sorted(b@) ==> forall|j: int| hi <= j < n ==> #[trigger] record_id(b@, j) > v,
        decreases hi - lo,
    {
        let mid = lo + (hi - lo) / 2;
        proof {
            lemma_mul_le(mid + 1, n as int, 24);
        }
        let id = read_word(b, 8 + 24 * mid);
        if id == v {
            return Some(mid);
        } else if id < v {
            assert(ids_sorted(b@) ==> forall|j: int| 0 <= j < mid + 1 ==> #[trigger] record_id(b@, j) < v)
                by {
                if ids_sorted(b@) {
                    assert forall|j: int| 0 <= j < mid + 1 implies #[trigger] record_id(b@, j) < v by {
                        if j < mid {
                            assert(record_id(b@, j) < record_id(b@, mid as int));
                        }
                    }
                }
            }
            lo = mid + 1;
        } else {
            assert(ids_sorted(b@) ==> forall|j: int| mid <= j < n ==> #[trigger] record_id(b@, j) > v)
                by {
                if ids_sorted(b@) {
                    assert forall|j: int| mid <= j < n implies #[trigger] record_id(b@, j) > v by {
                        if j > mid {
                            assert(record_id(b@, mid as int) < record_id(b@, j));
                        }
                    }
                }
            }
            hi = mid;
        }
    }
    None
}

/// The offset and number of the out-edges of vertex record `i`, once they are
/// known to fit inside the file.
fn row_bounds(b: &[u8], n: usize, i: usize) -> (res: Result<(usize, usize), MemmapError>)
    requires
        table_fits(b@),
        n == vertex_count(b@),
        i < n,
    ensures
        match res {
            Ok((offset, degree)) => row_fits(b@, i as int) && offset == record_offset(b@, i as int)
                && degree == record_degree(b@, i as int),
            Err(e) => !row_fits(b@, i as int) && e == MemmapError::Truncated,
        },
{
    let len = b.len();
    proof {
        lemma_mul_le(i + 1, n as int, 24);
    }
    let degree = read_word(b, 8 + 24 * i + 8);
    let offset = read_word(b, 8 + 24 * i + 16);
    if offset > len as u64 {
        return Err(MemmapError::Truncated);
    }
    let room = (len - offset as usize) / 16;
    proof {
        lemma_quotient_bound(degree as int, len - offset, 16);
    }
    if degree > room as u64 {
        Err(MemmapError::Truncated)
    } else {
        Ok((offset as usize, degree as usize))
    }
}

/// The index of the out-edge to `t` among the `degree` out-edges at `offset`
/// of vertex record `i`, found by binary search.
fn find_edge(b: &[u8], i: Ghost<int>, offset: usize, degree: usize, t: u64) -> (res: Option<usize>)
    requires
        0 <= i@ < vertex_count(b@),
        table_fits(b@),
        row_fits(b@, i@),
        offset == record_offset(b@, i@),
        degree == record_degree(b@, i@),
    ensures
        res matches Some(j) ==> j < degree && edge_target(b@, i@, j as int) == t,
        res is None && row_sorted(b@, i@) ==> !row_has(b@, i@, t),
{
    let len = b.len();
    let mut lo: usize = 0;
    let mut hi: usize = degree;
    while lo < hi
        invariant
            0 <= lo <= hi <= degree,
            len == b@.len(),
            row_fits(b@, i@),
            offset == record_offset(b@, i@),
            degree == record_degree(b@, i@),
            row_sorted(b@, i@) ==> forall|j: int| 0 <= j < lo ==> #[trigger] edge_target(b@, i@, j) < t,
            row_sorted(b@, i@) ==> forall|j: int| hi <= j < degree ==> #[trigger] edge_target(b@, i@, j) > t,
        decreases hi - lo,
    {
        let mid = lo + (hi - lo) / 2;
        proof {
            lemma_mul_le(mid + 1, degree as int, 16);
        }
        let target = read_word(b, offset + 16 * mid);
        if target == t {
            return Some(mid);
        } else if target < t {
            assert(row_sorted(b@, i@) ==> forall|j: int| 0 <= j < mid + 1 ==> #[trigger] edge_target(b@, i@, j) < t)
                by {
                if row_sorted(b@, i@) {
                    assert forall|j: int| 0 <= j < mid + 1 implies #[trigger] edge_target(b@, i@, j) < t by {
                        if j < mid {
                            assert(edge_target(b@, i@, j) < edge_target(b@, i@, mid as int));
                        }
                    }
                }
            }
            lo = mid + 1;
        } else {
            assert(row_sorted(b@, i@) ==> forall|j: int| mid <= j < degree ==> #[trigger] edge_target(b@, i@, j) > t)
                by {
                if row_sorted(b@, i@) {
                    assert forall|j: int| mid <= j < degree implies #[trigger] edge_target(b@, i@, j) > t by {
                        if j > mid {
                            assert(edge_target(b@, i@, mid as int) < edge_target(b@, i@, j));
                        }
                    }
                }
            }
            hi = mid;
        }
    }
    None
}

/// The ids of all vertices, in file order.
pub fn vertices_in(b: &[u8]) -> (res: Result<Vec<u64>, MemmapError>)
    ensures
        vertices_answer(b@, res),
{
    let n = match checked_vertex_count(b) {
        Ok(n) => n,
        Err(e) => return Err(e),
    };
    let mut ids: Vec<u64> = Vec::new();
    let len = b.len();
    for i in 0..n
        invariant
            len == b@.len(),
            table_fits(b@),
            n == vertex_count(b@),
            ids@ == record_ids(b@).take(i as int),
    {
        proof {
            lemma_mul_le(i + 1, n as int, 24);
        }
        let id = read_word(b, 8 + 24 * i);
        ids.push(id);
        assert(record_ids(b@).take(i + 1) =~= record_ids(b@).take(i as int).push(id));
    }
    assert(record_ids(b@).take(n as int) =~= record_ids(b@));
    Ok(ids)
}

/// The record index of vertex `v` and the bounds of its out-edges.
fn row_of(b: &[u8], v: u64) -> (res: Result<(Ghost<int>, usize, usize), MemmapError>)
    ensures
        file_sorted(b@) ==> match res {
            Ok((i, _, _)) => locate_row(b@, v) == Ok::<int, MemmapError>(i@),
            Err(e) => locate_row(b@, v) == Err::<int, MemmapError>(e),
        },
        !table_fits(b@) ==> res == Err::<(Ghost<int>, usize, usize), MemmapError>(MemmapError::Truncated),
        res matches Ok((i, offset, degree)) ==> 0 <= i@ < vertex_count(b@) && table_fits(b@)
            && record_id(b@, i@) == v && row_fits(b@, i@) && offset == record_offset(b@, i@)
            && degree == record_degree(b@, i@),
{
    let n = match checked_vertex_count(b) {
        Ok(n) => n,
        Err(e) => return Err(e),
    };
    let i = match find_vertex(b, n, v) {
        Some(i) => i,
        None => return Err(MemmapError::VertexNotFound),
    };
    proof {
        if ids_sorted(b@) {
            lemma_vertex_index_unique(b@, v, i as int);
        }
    }
    match row_bounds(b, n, i) {
        Ok((offset, degree)) => Ok((Ghost(i as int), offset, degree)),
        Err(e) => Err(e),
    }
}

/// The out-edges `(target, weight bits)` of vertex `v`, in file order.
pub fn neighbors_in(b: &[u8], v: u64) -> (res: Result<Vec<(u64, u64)>, MemmapError>)
    ensures
        neighbors_answer(b@, v, res),
{
    let (gi, offset, degree) = match row_of(b, v) {
        Ok(r) => r,
        Err(e) => return Err(e),
    };
    let ghost i = gi@;
    let mut edges: Vec<(u64, u64)> = Vec::new();
    let len = b.len();
    for j in 0..degree
        invariant
            len == b@.len(),
            0 <= i < vertex_count(b@),
            row_fits(b@, i),
            offset == record_offset(b@, i),
            degree == record_degree(b@, i),
            edges@ == row_edges(b@, i).take(j as int),
    {
        proof {
            lemma_mul_le(j + 1, degree as int, 16);
        }
        let target = read_word(b, offset + 16 * j);
        let cost = read_word(b, offset + 16 * j + 8);
        edges.push((target, cost));
        assert(row_edges(b@, i).take(j + 1) =~= row_edges(b@, i).take(j as int).push((target, cost)));
    }
    assert(row_edges(b@, i).take(degree as int) =~= row_edges(b@, i));
    Ok(edges)
}

/// The weight bits of the edge `from -> to`, if there is one.
pub fn edge_weight_in(b: &[u8], from: u64, to: u64) -> (res: Result<Option<u64>, MemmapError>)
    ensures
        weight_answer(b@, from, to, res),
{
    let (gi, offset, degree) = match row_of(b, from) {
        Ok(r) => r,
        Err(e) => return Err(e),
    };
    let _len = b.len();
    match find_edge(b, gi, offset, degree, to) {
        Some(j) => {
            proof {
                lemma_mul_le(j + 1, degree as int, 16);
                if file_sorted(b@) {
                    lemma_edge_index_unique(b@, gi@, to, j as int);
                }
            }
            Ok(Some(read_word(b, offset + 16 * j + 8)))
        },
        None => Ok(None),
    }
}

/// Sets the weight bits of the edge `from -> to` to `cost`; `Ok(false)` when
/// there is no such edge, in which case nothing is written.
pub fn set_edge_weight_in(b: &mut [u8], from: u64, to: u64, cost: u64) -> (res: Result<bool, MemmapError>)
    ensures
        set_answer(old(b)@, final(b)@, from, to, cost, res),
{
    let (gi, offset, degree) = match row_of(b, from) {
        Ok(r) => r,
        Err(e) => return Err(e),
    };
    let _len = b.len();
    match find_edge(b, gi, offset, degree, to) {
        Some(j) => {
            proof {
                lemma_mul_le(j + 1, degree as int, 16);
                if file_sorted(b@) {
                    lemma_edge_index_unique(b@, gi@, to, j as int);
                }
            }
            let ghost before = b@;
            let at = offset + 16 * j + 8;
            write_word(b, at, cost);
            assert(b@ =~= with_word(before, at as int, cost));
            Ok(true)
        },
        None => Ok(false),
    }
}

/// Every row of out-edges starts after the vertex table.
pub open spec fn rows_after_table(b: Seq<u8>) -> bool {
    forall|i: int| 0 <= i < vertex_count(b) ==> #[trigger] record_offset(b, i) >= record_start(vertex_count(b))
}

/// A word that the write does not touch reads the same afterwards.
proof fn lemma_word_kept(b: Seq<u8>, at: int, x: u64, p: int)
    requires
        0 <= at,
        at + 8 <= b.len(),
        0 <= p,
        p + 8 <= b.len(),
        p + 8 <= at || p >= at + 8,
    ensures
        word_at(with_word(b, at, x), p) == word_at(b, p),
{
    vstd::bytes::lemma_auto_spec_u64_to_from_le_bytes();
    let w = with_word(b, at, x);
    assert(w.len() == b.len());
    assert(w.subrange(p, p + 8) =~= b.subrange(p, p + 8)) by {
        assert forall|k: int| 0 <= k < 8 implies #[trigger] w.subrange(p, p + 8)[k] == b.subrange(p, p + 8)[k] by {
            if p + 8 <= at {
                assert(w[p + k] == b.take(at)[p + k]);
            } else {
                assert(w[p + k] == b.skip(at + 8)[p + k - at - 8]);
            }
        }
    }
}

/// The written word reads back as the value written.
proof fn lemma_word_written(b: Seq<u8>, at: int, x: u64)
    requires
        0 <= at,
        at + 8 <= b.len(),
    ensures
        word_at(with_word(b, at, x), at) == x,
        with_word(b, at, x).len() == b.len(),
{
    vstd::bytes::lemma_auto_spec_u64_to_from_le_bytes();
    let w = with_word(b, at, x);
    assert(spec_u64_to_le_bytes(x).len() == 8);
    assert(w.subrange(at, at + 8) =~= spec_u64_to_le_bytes(x));
}

/// Setting the weight of an edge and reading it back gives the weight that was
/// set, in a well-formed file whose edge rows lie after its vertex table.
pub proof fn lemma_weight_read_after_set(b: Seq<u8>, from: u64, to: u64, cost: u64)
    requires
        file_sorted(b),
        rows_after_table(b),
        lookup_weight(b, from, to) matches Ok(Some(_)),
    ensures
        lookup_weight(set_weight_result(b, from, to, cost), from, to) == Ok::<Option<u64>, MemmapError>(
            Some(cost),
        ),
{
    let n = vertex_count(b);
    let i = vertex_index(b, from);
    let j = edge_index(b, i, to);
    let at = edge_start(b, i, j) + 8;
    let w = with_word(b, at, cost);
    assert(set_weight_result(b, from, to, cost) == w);
    assert(0 <= i < n && record_id(b, i) == from);
    assert(0 <= j < record_degree(b, i) && edge_target(b, i, j) == to);
    lemma_mul_le(j + 1, record_degree(b, i), 16);
    lemma_word_written(b, at, cost);
    lemma_word_kept(b, at, cost, 0);
    assert(vertex_count(w) == n);
    assert forall|k: int| 0 <= k < n implies #[trigger] record_id(w, k) == record_id(b, k)
        && record_degree(w, k) == record_degree(b, k) && record_offset(w, k) == record_offset(b, k) by {
        lemma_mul_le(k + 1, n, 24);
        lemma_word_kept(b, at, cost, record_start(k));
        lemma_word_kept(b, at, cost, record_start(k) + 8);
        lemma_word_kept(b, at, cost, record_start(k) + 16);
    }
    assert(record_id(w, i) == record_id(b, i));
    assert(record_offset(w, i) == record_offset(b, i));
    assert(record_degree(w, i) == record_degree(b, i));
    assert forall|k: int| 0 <= k < record_degree(b, i) implies #[trigger] edge_target(w, i, k) == edge_target(b, i, k) by {
        lemma_mul_le(k + 1, record_degree(b, i), 16);
        if k <= j {
            lemma_mul_le(k, j, 16);
        } else {
            lemma_mul_le(j + 1, k, 16);
        }
        lemma_word_kept(b, at, cost, edge_start(b, i, k));
    }
    assert(table_fits(w));
    assert(has_vertex(w, from)) by {
        assert(record_id(w, i) == from);
    }
    let iw = vertex_index(w, from);
    assert(record_id(b, iw) == from);
    lemma_vertex_index_unique(b, from, iw);
    assert(iw == i);
    assert(row_fits(w, i));
    assert(row_has(w, i, to)) by {
        assert(edge_target(w, i, j) == to);
    }
    let jw = edge_index(w, i, to);
    assert(edge_target(b, i, jw) == to);
    lemma_edge_index_unique(b, i, to, jw);
    assert(jw == j);
}

/// The vertices answered for a file whose vertex table fits are the ids of all
/// its vertex records, in file order.
pub proof fn lemma_vertices_are_record_ids(b: Seq<u8>, res: Result<Vec<u64>, MemmapError>)
    requires
        table_fits(b),
        vertices_answer(b, res),
    ensures
        res is Ok,
        res->Ok_0@.len() == vertex_count(b),
        forall|k: int| 0 <= k < vertex_count(b) ==> res->Ok_0@[k] == record_id(b, k),
{
}

/// In a sorted file whose vertex table fits, the vertices answered and the
/// out-edges answered agree: asking for the out-edges of `v` fails with
/// `VertexNotFound` exactly when `v` is not among the vertices.
pub proof fn lemma_vertices_agree_with_neighbors(
    b: Seq<u8>,
    rv: Result<Vec<u64>, MemmapError>,
    v: u64,
    rn: Result<Vec<(u64, u64)>, MemmapError>,
)
    requires
        file_sorted(b),
        table_fits(b),
        vertices_answer(b, rv),
        neighbors_answer(b, v, rn),
    ensures
        rv is Ok,
        rn == Err::<Vec<(u64, u64)>, MemmapError>(MemmapError::VertexNotFound) <==> !rv->Ok_0@.contains(v),
{
    let ids = rv->Ok_0@;
    if ids.contains(v) {
        let k = choose|k: int| 0 <= k < ids.len() && ids[k] == v;
        assert(record_id(b, k) == v);
        assert(has_vertex(b, v));
    }
    if has_vertex(b, v) {
        let k = choose|k: int| 0 <= k < vertex_count(b) && #[trigger] record_id(b, k) == v;
        assert(ids[k] == v);
        assert(ids.contains(v));
    }
}

/// In a sorted file, the out-edges answered for a vertex that has a record
/// whose row lies inside the file are exactly the edges stored in that row, in
/// order.
pub proof fn lemma_neighbors_are_stored_row(
    b: Seq<u8>,
    v: u64,
    i: int,
    res: Result<Vec<(u64, u64)>, MemmapError>,
)
    requires
        file_sorted(b),
        table_fits(b),
        0 <= i < vertex_count(b),
        record_id(b, i) == v,
        row_fits(b, i),
        neighbors_answer(b, v, res),
    ensures
        res is Ok,
        res->Ok_0@.len() == record_degree(b, i),
        forall|k: int|
            0 <= k < record_degree(b, i) ==> res->Ok_0@[k] == (edge_target(b, i, k), edge_cost(b, i, k)),
{
    lemma_vertex_index_unique(b, v, i);
    assert(has_vertex(b, v));
    assert(locate_row(b, v) == Ok::<int, MemmapError>(i));
}

/// In a sorted file, the weight answered for an edge stored in the row of a
/// vertex record (a row that lies inside the file) is the weight stored with it.
pub proof fn lemma_weight_is_stored_cost(
    b: Seq<u8>,
    from: u64,
    to: u64,
    i: int,
    j: int,
    res: Result<Option<u64>, MemmapError>,
)
    requires
        file_sorted(b),
        table_fits(b),
        0 <= i < vertex_count(b),
        record_id(b, i) == from,
        row_fits(b, i),
        0 <= j < record_degree(b, i),
        edge_target(b, i, j) == to,
        weight_answer(b, from, to, res),
    ensures
        res == Ok::<Option<u64>, MemmapError>(Some(edge_cost(b, i, j))),
{
    lemma_vertex_index_unique(b, from, i);
    assert(has_vertex(b, from));
    assert(locate_row(b, from) == Ok::<int, MemmapError>(i));
    assert(row_sorted(b, i));
    lemma_edge_index_unique(b, i, to, j);
    assert(row_has(b, i, to));
}

/// In a sorted file, the out-edges and the edge weights answered for a vertex
/// agree: once the out-edges of `from` are answered, the weight of `from -> to`
/// is answered too, and it is `w` exactly when `(to, w)` is among those out-edges.
pub proof fn lemma_neighbors_agree_with_weights(
    b: Seq<u8>,
    from: u64,
    to: u64,
    rn: Result<Vec<(u64, u64)>, MemmapError>,
    rw: Result<Option<u64>, MemmapError>,
)
    requires
        file_sorted(b),
        neighbors_answer(b, from, rn),
        weight_answer(b, from, to, rw),
        rn is Ok,
    ensures
        rw is Ok,
        forall|w: u64| rw == Ok::<Option<u64>, MemmapError>(Some(w)) <==> #[trigger] rn->Ok_0@.contains((to, w)),
{
    let edges = rn->Ok_0@;
    let i = vertex_index(b, from);
    assert(locate_row(b, from) == Ok::<int, MemmapError>(i));
    assert(edges == row_edges(b, i));
    assert(row_sorted(b, i));
    assert forall|w: u64| rw == Ok::<Option<u64>, MemmapError>(Some(w)) <==> #[trigger] edges.contains((to, w)) by {
        if edges.contains((to, w)) {
            let k = choose|k: int| 0 <= k < edges.len() && edges[k] == (to, w);
            assert(edge_target(b, i, k) == to && edge_cost(b, i, k) == w);
            assert(row_has(b, i, to));
            lemma_edge_index_unique(b, i, to, k);
        }
        if rw == Ok::<Option<u64>, MemmapError>(Some(w)) {
            assert(row_has(b, i, to));
            let k = edge_index(b, i, to);
            assert(edges[k] == (to, w));
            assert(edges.contains((to, w)));
        }
    }
}

/// In a sorted file whose rows lie after its vertex table, setting the weight
/// of an edge stored in the row of a vertex record (a row inside the file)
/// succeeds, and afterwards the file holds the weight that was set for it.
pub proof fn lemma_set_stored_edge(
    b0: Seq<u8>,
    b1: Seq<u8>,
    from: u64,
    to: u64,
    i: int,
    j: int,
    cost: u64,
    res: Result<bool, MemmapError>,
)
    requires
        file_sorted(b0),
        rows_after_table(b0),
        table_fits(b0),
        0 <= i < vertex_count(b0),
        record_id(b0, i) == from,
        row_fits(b0, i),
        0 <= j < record_degree(b0, i),
        edge_target(b0, i, j) == to,
        set_answer(b0, b1, from, to, cost, res),
    ensures
        res == Ok::<bool, MemmapError>(true),
        lookup_weight(b1, from, to) == Ok::<Option<u64>, MemmapError>(Some(cost)),
{
    lemma_vertex_index_unique(b0, from, i);
    assert(has_vertex(b0, from));
    assert(locate_row(b0, from) == Ok::<int, MemmapError>(i));
    assert(row_has(b0, i, to));
    lemma_weight_read_after_set(b0, from, to, cost);
}

/// A graph in the file format above, read and edited in place through a memory map.
pub struct Graph {
    mapping: Mapping,
}

impl Graph {
    /// The bytes have been seen since the map was taken.
    #[verifier::type_invariant]
    closed spec fn seen_once(&self) -> bool {
        self.mapping.seen() is Some
    }

    /// The memory map that holds the graph.
    pub closed spec fn map(&self) -> MmapMut {
        self.mapping.map()
    }

    /// The bytes that the memory map holds.
    pub closed spec fn bytes(&self) -> Seq<u8> {
        self.mapping.seen()->0
    }

    /// The graph in the memory map `mmap`.
    pub fn from_mmap(mmap: MmapMut) -> (g: Self)
        ensures
            g.map() == mmap,
    {
        Graph { mapping: Mapping::new(mmap) }
    }

    /// The memory map of the graph, to flush or unmap.
    pub fn into_mmap(self) -> (m: MmapMut)
        ensures
            m == self.map(),
    {
        self.mapping.into_map()
    }

    /// The ids of all vertices, in file order.
    pub fn vertices(&self) -> (res: Result<Vec<u64>, MemmapError>)
        ensures
            vertices_answer(self.bytes(), res),
    {
        proof {
            use_type_invariant(self);
        }
        vertices_in(mapped_bytes(&self.mapping))
    }

    /// The out-edges `(target, weight bits)` of vertex `v`.
    pub fn neighbors(&self, v: u64) -> (res: Result<Vec<(u64, u64)>, MemmapError>)
        ensures
            neighbors_answer(self.bytes(), v, res),
    {
        proof {
            use_type_invariant(self);
        }
        neighbors_in(mapped_bytes(&self.mapping), v)
    }

    /// The weight bits of the edge `from -> to`, if there is one.
    pub fn get_edge_weight(&self, from: u64, to: u64) -> (res: Result<Option<u64>, MemmapError>)
        ensures
            weight_answer(self.bytes(), from, to, res),
    {
        proof {
            use_type_invariant(self);
        }
        edge_weight_in(mapped_bytes(&self.mapping), from, to)
    }

    /// Sets the weight bits of the edge `from -> to` to `cost`; `Ok(false)` when
    /// there is no such edge.
    pub fn set_edge_weight(&mut self, from: u64, to: u64, cost: u64) -> (res: Result<bool, MemmapError>)
        ensures
            set_answer(old(self).bytes(), final(self).bytes(), from, to, cost, res),
            final(self).map() == old(self).map(),
    {
        proof {
            use_type_invariant(&*self);
        }
        set_edge_weight_in(mapped_bytes_mut(&mut self.mapping), from, to, cost)
    }
}

} // verus!
