use glam::Vec3;
use icosphere::Icosphere;
use icosphere::levels::IcosphereLevels;
use icosphere::SparseIcosphere;
use icosphere::StaticIcosphere;
use icosphere::{triangle_count, vertex_count};

fn pow4(d: u32) -> usize {
    1usize << (2 * d)
}

#[test]
fn count_formulas() {
    assert_eq!(vertex_count(0), 12);
    assert_eq!(triangle_count(0), 20);
    assert_eq!(vertex_count(1), 42);
    assert_eq!(triangle_count(1), 80);
    assert_eq!(vertex_count(2), 162);
    assert_eq!(triangle_count(2), 320);
}

#[test]
fn count_growth_identities() {
    for d in 0..6usize {
        assert_eq!(vertex_count(d + 1), vertex_count(d) + 30 * pow4(d as u32));
        assert_eq!(triangle_count(d + 1), 4 * triangle_count(d));
    }
}

#[test]
fn regular_icosahedron_layout() {
    let ico: StaticIcosphere<Vec3> = StaticIcosphere::regular();
    assert_eq!(ico.binning_depth, 0);
    assert_eq!(ico.vertices.len(), 12);
    assert_eq!(ico.triangles.len(), 20);
    assert_eq!(ico.triangles[0], [0, 11, 5]);
    assert_eq!(ico.triangles[1], [0, 5, 1]);
    assert_eq!(ico.triangles[19], [9, 8, 1]);
    // Every vertex has exactly 5 neighbors at depth 0.
    assert_eq!(ico.neighbors.len(), 12);
    for v in 0..12usize {
        assert_eq!(ico.neighbors[&v].len(), 5, "vertex {v}");
    }
    // The table is symmetric.
    for (v, ns) in &ico.neighbors {
        for n in ns {
            assert!(ico.neighbors[n].contains(v));
        }
    }
    // Positions are unit length.
    for v in &ico.vertices {
        assert!((v.length() - 1.0).abs() < 1e-6);
    }
}

#[test]
fn subdivision_counts_and_degrees() {
    let ico: StaticIcosphere<Vec3> = StaticIcosphere::nth(2);
    assert_eq!(ico.binning_depth, 2);
    assert_eq!(ico.triangles.len(), triangle_count(2));
    assert_eq!(ico.vertices.len(), vertex_count(2));
    // Adjacency: 5 or 6 neighbors each, exactly 12 with 5.
    assert_eq!(ico.neighbors.len(), ico.vertices.len());
    let mut fives = 0;
    for ns in ico.neighbors.values() {
        match ns.len() {
            5 => fives += 1,
            6 => {}
            d => panic!("unexpected degree {d}"),
        }
    }
    assert_eq!(fives, 12);
    // Midpoints are unit length and differ from both endpoints.
    for t in &ico.triangles {
        for v in t {
            assert!((ico.vertices[*v as usize].length() - 1.0).abs() < 1e-6);
        }
    }
}

#[test]
fn child_ordering_keeps_corner_first() {
    let base: StaticIcosphere<Vec3> = StaticIcosphere::regular();
    let sub = base.subdivide();
    assert_eq!(sub.triangles.len(), 80);
    for p in 0..20usize {
        let [a, b, c] = base.triangles[p];
        // Corner triangles keep their originating corner first; the center
        // triangle of the three midpoints comes last.
        assert_eq!(sub.triangles[4 * p][0], a);
        assert_eq!(sub.triangles[4 * p + 1][0], b);
        assert_eq!(sub.triangles[4 * p + 2][0], c);
        let center = sub.triangles[4 * p + 3];
        assert_eq!(sub.triangles[4 * p][1], center[0]);
        assert_eq!(sub.triangles[4 * p + 1][1], center[1]);
        assert_eq!(sub.triangles[4 * p + 2][1], center[2]);
    }
}

#[test]
fn dense_to_sparse_round_trip() {
    let dense: StaticIcosphere<Vec3> = StaticIcosphere::nth(1);
    let vcount = dense.vertices.len();
    let tcount = dense.triangles.len();
    let degrees: Vec<usize> = {
        let mut d: Vec<usize> = dense.neighbors.values().map(|s| s.len()).collect();
        d.sort();
        d
    };
    let sparse = SparseIcosphere::from_static(dense);
    assert_eq!(sparse.binning_depth, 1);
    assert_eq!(sparse.allocated_vertex_count(), vcount);
    assert_eq!(sparse.allocated_triangle_count(), tcount);
    assert_eq!(sparse.allocated_triangle_count(), sparse.total_triangle_count());
    let mut sparse_degrees: Vec<usize> = sparse.neighbors.values().map(|s| s.len()).collect();
    sparse_degrees.sort();
    assert_eq!(degrees, sparse_degrees);
}

#[test]
fn empty_sparse_mesh() {
    let s: SparseIcosphere<Vec3> = SparseIcosphere::empty(2);
    assert_eq!(s.binning_depth, 2);
    assert_eq!(s.allocated_triangle_count(), 0);
    assert_eq!(s.allocated_vertex_count(), 0);
    assert_eq!(s.total_triangle_count(), 320);
    assert_eq!(s.total_vertex_count(), 162);
    assert!(s.neighbors.is_empty());
}

#[test]
fn sparse_chunk_idempotence() {
    let parent: SparseIcosphere<Vec3> = SparseIcosphere::filled(1);
    let mut child: SparseIcosphere<Vec3> = SparseIcosphere::empty(2);
    assert!(child.subdivide_chunk(&parent, 7));
    let tris = child.allocated_triangle_count();
    let verts = child.allocated_vertex_count();
    assert_eq!(tris, 4);
    assert_eq!(verts, 6);
    // Re-requesting the same chunk is a no-op.
    assert!(!child.subdivide_chunk(&parent, 7));
    assert_eq!(child.allocated_triangle_count(), tris);
    assert_eq!(child.allocated_vertex_count(), verts);
    for k in 28..32usize {
        assert!(child.triangles.contains_key(&k));
    }
}

#[test]
fn sparse_shared_corners_and_midpoints() {
    // Generating every chunk one at a time gives exactly the full counts:
    // shared corners and shared edge midpoints are created only once.
    let parent: SparseIcosphere<Vec3> = SparseIcosphere::filled(1);
    let mut child: SparseIcosphere<Vec3> = SparseIcosphere::empty(2);
    for i in 0..80usize {
        child.subdivide_chunk(&parent, i);
    }
    assert_eq!(child.allocated_triangle_count(), triangle_count(2));
    assert_eq!(child.allocated_vertex_count(), vertex_count(2));
}

#[test]
fn sparse_dense_equivalence() {
    // Chunk-by-chunk sparse generation and the dense whole-mesh subdivision
    // agree triangle by triangle, up to the vertex permutation induced by
    // insertion order: corresponding corners hold identical positions.
    let dense: StaticIcosphere<Vec3> = StaticIcosphere::nth(2);
    let parent: SparseIcosphere<Vec3> = SparseIcosphere::filled(1);
    let mut sparse: SparseIcosphere<Vec3> = SparseIcosphere::empty(2);
    for i in 0..80usize {
        sparse.subdivide_chunk(&parent, i);
    }
    for key in 0..320usize {
        let dt = dense.triangle(key);
        let st = sparse.triangle(key);
        for c in 0..3 {
            let dp = dense.vertices[dt[c] as usize];
            let sp = sparse.vertices[st[c] as usize];
            assert_eq!(dp, sp, "triangle {key} corner {c}");
        }
    }
}

#[test]
fn sparse_whole_subdivide_is_as_complete_as_source() {
    let full: SparseIcosphere<Vec3> = SparseIcosphere::filled(1);
    let next = full.subdivide();
    assert_eq!(next.binning_depth, 2);
    assert_eq!(next.allocated_triangle_count(), triangle_count(2));
    // A partial source yields an equally partial result.
    let parent: SparseIcosphere<Vec3> = SparseIcosphere::filled(1);
    let mut partial: SparseIcosphere<Vec3> = SparseIcosphere::empty(2);
    partial.subdivide_chunk(&parent, 3);
    let next = partial.subdivide();
    assert_eq!(next.binning_depth, 3);
    assert_eq!(next.allocated_triangle_count(), 16);
    for k in 0..16usize {
        assert!(next.triangles.contains_key(&(48 + k)));
    }
}

#[test]
fn manager_update_chunk_idempotence() {
    let mut mgr: IcosphereLevels<Vec3, SparseIcosphere<Vec3>> = IcosphereLevels::new(1, 3, 1);
    assert_eq!(mgr.min_binning_depth, 1);
    assert_eq!(mgr.max_binning_depth, 3);
    assert_eq!(mgr.level_count(), 3);
    *mgr.get_mut(0) = SparseIcosphere::filled(1);
    assert!(mgr.update_chunk(1, 5));
    let tris = mgr.get(1).allocated_triangle_count();
    let verts = mgr.get(1).allocated_vertex_count();
    assert!(!mgr.update_chunk(1, 5));
    assert_eq!(mgr.get(1).allocated_triangle_count(), tris);
    assert_eq!(mgr.get(1).allocated_vertex_count(), verts);
}

#[test]
fn manager_chunk_coverage() {
    let mgr: IcosphereLevels<Vec3, SparseIcosphere<Vec3>> = IcosphereLevels::new(1, 3, 1);
    assert_eq!(mgr.chunk_size(), 4);
    // Subchunk ranges at level 1.
    for k in 0..mgr.chunk_count(1) {
        assert_eq!(mgr.subchunk_indices(k), (4 * k, 4 * k + 4));
    }
    // The union of the subchunk ranges over all chunks of level 1 exactly
    // partitions 0..chunk_count(2).
    assert_eq!(mgr.chunk_count(1), 80);
    assert_eq!(mgr.chunk_count(2), 320);
    let mut covered = vec![0usize; mgr.chunk_count(2)];
    for k in 0..mgr.chunk_count(1) {
        let (start, end) = mgr.subchunk_indices(k);
        for j in start..end {
            covered[j] += 1;
        }
    }
    assert!(covered.iter().all(|&c| c == 1));
}

#[test]
fn manager_level_of_binning_depth() {
    let mgr: IcosphereLevels<Vec3, SparseIcosphere<Vec3>> = IcosphereLevels::new(2, 3, 2);
    assert_eq!(mgr.max_binning_depth, 6);
    // Exact inverse of binning_depth_at_level on reachable depths.
    for level in 0..3usize {
        let depth = mgr.binning_depth_at_level(level);
        assert_eq!(mgr.level_of_binning_depth(depth), Some(level));
    }
    // No such level outside the range or off the step.
    assert_eq!(mgr.level_of_binning_depth(0), None);
    assert_eq!(mgr.level_of_binning_depth(1), None);
    assert_eq!(mgr.level_of_binning_depth(3), None);
    assert_eq!(mgr.level_of_binning_depth(5), None);
    assert_eq!(mgr.level_of_binning_depth(7), None);
}

#[test]
fn manager_flattened_chunk_indices() {
    let mgr: IcosphereLevels<Vec3, StaticIcosphere<Vec3>> = IcosphereLevels::new(1, 2, 1);
    let flat = mgr.flattened_chunk_indices(1, 2);
    assert_eq!(flat.len(), 12);
    let ico = mgr.get(1);
    for o in 0..4usize {
        let t = ico.triangle(8 + o);
        assert_eq!(flat[3 * o], t[0]);
        assert_eq!(flat[3 * o + 1], t[1]);
        assert_eq!(flat[3 * o + 2], t[2]);
    }
}

#[test]
fn surface_area_approximation() {
    let area = app_area(0, 1.0);
    let expected = 4.0 * std::f32::consts::PI / 20.0;
    assert!((area - expected).abs() < 1e-6);
}

fn app_area(binning_depth: usize, radius: f32) -> f32 {
    (4.0 * std::f32::consts::PI * radius * radius) / triangle_count(binning_depth) as f32
}

#[test]
fn sparse_chunk_adjacency_links() {
    // One generated chunk: corners get indices 0..3, midpoints 3..6, and the
    // adjacency holds the midpoint-endpoint and midpoint-midpoint links both
    // ways.
    let parent: SparseIcosphere<Vec3> = SparseIcosphere::filled(1);
    let mut child: SparseIcosphere<Vec3> = SparseIcosphere::empty(2);
    assert!(child.subdivide_chunk(&parent, 7));
    for (v, w) in [(0usize, 3usize), (1, 3), (1, 4), (2, 4), (2, 5), (0, 5), (3, 4), (4, 5), (5, 3)]
    {
        assert!(child.neighbors[&v].contains(&w), "{v} -> {w}");
        assert!(child.neighbors[&w].contains(&v), "{w} -> {v}");
    }
}
