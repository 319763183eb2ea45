use graph_challenge::graph_memmap::{edge_weight_in, neighbors_in, set_edge_weight_in, vertices_in, Graph, MemmapError};
use memmap2::MmapMut;

/// The file of a graph given as sorted `(vertex, sorted out-edges)` rows.
fn encode(rows: &[(u64, Vec<(u64, f64)>)]) -> Vec<u8> {
    let n = rows.len();
    let mut out = Vec::new();
    out.extend_from_slice(&(n as u64).to_le_bytes());
    let mut offset = 8 + 24 * n;
    for (v, edges) in rows {
        out.extend_from_slice(&v.to_le_bytes());
        out.extend_from_slice(&(edges.len() as u64).to_le_bytes());
        out.extend_from_slice(&(offset as u64).to_le_bytes());
        offset += 16 * edges.len();
    }
    for (_, edges) in rows {
        for (t, c) in edges {
            out.extend_from_slice(&t.to_le_bytes());
            out.extend_from_slice(&c.to_bits().to_le_bytes());
        }
    }
    out
}

fn sample() -> Vec<u8> {
    encode(&[
        (1, vec![(2, 4.0), (6, 2.0), (8, 6.0)]),
        (2, vec![(3, 2.0), (7, 3.0)]),
        (3, vec![]),
        (6, vec![(7, 5.0)]),
    ])
}

fn mapped(bytes: &[u8]) -> Graph {
    let mut m = MmapMut::map_anon(bytes.len()).unwrap();
    m.copy_from_slice(bytes);
    Graph::from_mmap(m)
}

#[test]
fn vertices_in_file_order() {
    assert_eq!(vertices_in(&sample()), Ok(vec![1, 2, 3, 6]));
    assert_eq!(mapped(&sample()).vertices(), Ok(vec![1, 2, 3, 6]));
}

#[test]
fn neighbors_of_a_vertex() {
    let b = sample();
    assert_eq!(
        neighbors_in(&b, 1),
        Ok(vec![(2, 4.0f64.to_bits()), (6, 2.0f64.to_bits()), (8, 6.0f64.to_bits())])
    );
    assert_eq!(neighbors_in(&b, 3), Ok(vec![]));
    assert_eq!(neighbors_in(&b, 4), Err(MemmapError::VertexNotFound));
}

#[test]
fn edge_weights() {
    let g = mapped(&sample());
    assert_eq!(g.get_edge_weight(1, 6).unwrap().map(f64::from_bits), Some(2.0));
    assert_eq!(g.get_edge_weight(2, 7).unwrap().map(f64::from_bits), Some(3.0));
    assert_eq!(g.get_edge_weight(2, 1), Ok(None));
    assert_eq!(g.get_edge_weight(9, 1), Err(MemmapError::VertexNotFound));
}

#[test]
fn test_add_and_edit_edge() {
    let mut g = mapped(&encode(&[(1, vec![(2, 5.0)]), (2, vec![])]));
    assert_eq!(g.get_edge_weight(1, 2).unwrap().map(f64::from_bits), Some(5.0));
    assert_eq!(g.set_edge_weight(1, 2, 10.0f64.to_bits()), Ok(true));
    assert_eq!(g.get_edge_weight(1, 2).unwrap().map(f64::from_bits), Some(10.0));
}

#[test]
fn set_weight_of_missing_edge_writes_nothing() {
    let mut b = sample();
    let before = b.clone();
    assert_eq!(set_edge_weight_in(&mut b, 1, 3, 1.0f64.to_bits()), Ok(false));
    assert_eq!(b, before);
    assert_eq!(set_edge_weight_in(&mut b, 5, 3, 1.0f64.to_bits()), Err(MemmapError::VertexNotFound));
    assert_eq!(b, before);
}

#[test]
fn set_weight_changes_only_that_word() {
    let mut b = sample();
    let before = b.clone();
    assert_eq!(set_edge_weight_in(&mut b, 6, 7, 9.5f64.to_bits()), Ok(true));
    assert_eq!(edge_weight_in(&b, 6, 7), Ok(Some(9.5f64.to_bits())));
    let changed: Vec<usize> = (0..b.len()).filter(|&i| b[i] != before[i]).collect();
    assert!(!changed.is_empty());
    assert!(changed.iter().all(|&i| i >= b.len() - 8));
}

#[test]
fn truncated_files() {
    assert_eq!(vertices_in(&[1, 0, 0]), Err(MemmapError::Truncated));
    let mut b = sample();
    b.truncate(40);
    assert_eq!(vertices_in(&b), Err(MemmapError::Truncated));
    let mut c = sample();
    c.truncate(c.len() - 1);
    assert_eq!(neighbors_in(&c, 6), Err(MemmapError::Truncated));
    assert_eq!(neighbors_in(&c, 2).map(|e| e.len()), Ok(2));
}
