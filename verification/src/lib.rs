//! Icosphere meshes: spheres approximated by recursively subdividing a regular
//! icosahedron, with chunk-addressed, level-of-detail access to the triangles.
//!
//! The crate offers two mesh representations behind one capability trait: a
//! dense builder that materialises every subdivision eagerly, and a sparse
//! builder that generates triangles chunk by chunk on demand.  A level manager
//! (see [`levels`]) owns one mesh per subdivision depth and drives on-demand
//! generation.

#![verifier::loop_isolation(false)]

use std::collections::HashMap;
use std::collections::HashSet;
use vstd::prelude::*;

mod dense;
pub mod levels;
mod sparse;
mod vecmath;

pub use dense::canonical_mesh;
pub use dense::lemma_base_edge_count;
pub use dense::lemma_canonical_vertex_count_depth1;
pub use dense::is_base_neighbors;
pub use dense::is_base_triangles;
pub use dense::subdivision_of;
pub use dense::StaticIcosphere;
pub use sparse::chunk_generated_from;
pub use sparse::chunk_links;
pub use sparse::chunk_whole;
pub use sparse::converted_from;
pub use sparse::corners_cloned;
pub use sparse::SparseIcosphere;

verus! {

broadcast use vstd::std_specs::hash::group_hash_axioms;

/// `4^depth`: the factor by which the triangle count grows over `depth`
/// subdivisions.
pub open spec fn pow4(depth: nat) -> nat
    decreases depth,
{
    if depth == 0 {
        1
    } else {
        4 * pow4((depth - 1) as nat)
    }
}

/// Number of vertices of a fully built icosphere at the given depth.
pub open spec fn spec_vertex_count(depth: nat) -> nat {
    10 * pow4(depth) + 2
}

/// Number of triangles of a fully built icosphere at the given depth.
pub open spec fn spec_triangle_count(depth: nat) -> nat {
    20 * pow4(depth)
}

/// Depths at which every count computed by this crate (vertex indices, four
/// times the triangle count) fits in a `u32`, and hence in a `usize`.  All
/// builders require it; it holds for every depth up to 12.
pub open spec fn depth_fits(depth: nat) -> bool {
    80 * pow4(depth) <= u32::MAX
}

pub proof fn lemma_pow4_positive(depth: nat)
    ensures
        pow4(depth) >= 1,
    decreases depth,
{
    if depth > 0 {
        lemma_pow4_positive((depth - 1) as nat);
    }
}

pub proof fn lemma_pow4_monotone(d1: nat, d2: nat)
    requires
        d1 <= d2,
    ensures
        pow4(d1) <= pow4(d2),
    decreases d2,
{
    if d1 < d2 {
        lemma_pow4_monotone(d1, (d2 - 1) as nat);
        lemma_pow4_positive((d2 - 1) as nat);
    }
}

/// `pow4(a + b) == pow4(a) * pow4(b)`.
pub proof fn lemma_pow4_adds(a: nat, b: nat)
    ensures
        pow4(a + b) == pow4(a) * pow4(b),
    decreases a,
{
    if a > 0 {
        let a1 = (a - 1) as nat;
        lemma_pow4_adds(a1, b);
        assert(pow4(a + b) == 4 * pow4(a1 + b));
        assert(pow4(a + b) == pow4(a) * pow4(b)) by (nonlinear_arith)
            requires
                pow4(a + b) == 4 * (pow4(a1) * pow4(b)),
                pow4(a) == 4 * pow4(a1),
        ;
    } else {
        assert(pow4(a + b) == pow4(a) * pow4(b)) by (nonlinear_arith)
            requires
                pow4(a + b) == pow4(b),
                pow4(a) == 1,
        ;
    }
}

pub proof fn lemma_depth_fits_monotone(d1: nat, d2: nat)
    requires
        d1 <= d2,
        depth_fits(d2),
    ensures
        depth_fits(d1),
{
    lemma_pow4_monotone(d1, d2);
}

/// Edge-midpoint identity: each subdivision adds one vertex per edge, of which
/// a depth-`d` icosphere has `30 * 4^d`, and quadruples the triangle count.
pub proof fn lemma_count_growth(depth: nat)
    ensures
        spec_vertex_count(depth + 1) == spec_vertex_count(depth) + 30 * pow4(depth),
        spec_triangle_count(depth + 1) == 4 * spec_triangle_count(depth),
{
}

pub(crate) fn pow4_exec(depth: usize) -> (r: usize)
    requires
        pow4(depth as nat) <= usize::MAX,
    ensures
        r == pow4(depth as nat),
{
    let mut r: usize = 1;
    let mut i: usize = 0;
    while i < depth
        invariant
            i <= depth,
            r == pow4(i as nat),
            pow4(depth as nat) <= usize::MAX,
        decreases depth - i,
    {
        proof {
            lemma_pow4_monotone((i + 1) as nat, depth as nat);
        }
        r = r * 4;
        i = i + 1;
    }
    r
}

/// Vertex count of an icosphere at the given depth.
pub fn vertex_count(binning_depth: usize) -> (count: usize)
    requires
        spec_vertex_count(binning_depth as nat) <= usize::MAX,
    ensures
        count == spec_vertex_count(binning_depth as nat),
{
    10 * pow4_exec(binning_depth) + 2
}

/// Triangle count of an icosphere at the given depth.
pub fn triangle_count(binning_depth: usize) -> (count: usize)
    requires
        spec_triangle_count(binning_depth as nat) <= usize::MAX,
    ensures
        count == spec_triangle_count(binning_depth as nat),
{
    20 * pow4_exec(binning_depth)
}

/// Every feasible depth is at most 12, so a depth always fits comfortably in
/// every integer type used by this crate.
pub proof fn lemma_depth_fits_bound(depth: nat)
    requires
        depth_fits(depth),
    ensures
        depth <= 12,
{
    if depth > 12 {
        lemma_pow4_monotone(13, depth);
        assert(pow4(13) == 0x4000000) by {
            reveal_with_fuel(pow4, 14);
        }
    }
}

/// The canonical key of the undirected edge between vertex indices `i` and
/// `j`: the smaller index first, packed into one integer.
pub open spec fn spec_edge_key(i: int, j: int) -> int {
    if i <= j {
        i * 0x1_0000_0000 + j
    } else {
        j * 0x1_0000_0000 + i
    }
}

/// The canonical edge key as the `u64` under which the midpoint caches store
/// it; faithful for vertex indices below `2^32`.
pub open spec fn edge_key64(i: int, j: int) -> u64 {
    spec_edge_key(i, j) as u64
}

/// Two edges on vertex indices below `2^32` have the same key exactly when
/// they connect the same unordered pair of vertices.
pub proof fn lemma_edge_key_injective(i: int, j: int, k: int, l: int)
    requires
        0 <= i <= u32::MAX,
        0 <= j <= u32::MAX,
        0 <= k <= u32::MAX,
        0 <= l <= u32::MAX,
        edge_key64(i, j) == edge_key64(k, l),
    ensures
        (i == k && j == l) || (i == l && j == k),
{
    assert(spec_edge_key(i, j) == spec_edge_key(k, l));
    let (a1, b1) = if i <= j { (i, j) } else { (j, i) };
    let (a2, b2) = if k <= l { (k, l) } else { (l, k) };
    assert(a1 == a2 && b1 == b2) by (nonlinear_arith)
        requires
            0 <= a1 < 0x1_0000_0000,
            0 <= b1 < 0x1_0000_0000,
            0 <= a2 < 0x1_0000_0000,
            0 <= b2 < 0x1_0000_0000,
            a1 * 0x1_0000_0000 + b1 == a2 * 0x1_0000_0000 + b2,
    ;
}

/// A triangle is well formed for a mesh with `vertex_len` vertices when its
/// three corner indices are in bounds and pairwise distinct.
pub open spec fn tri_ok(t: [u32; 3], vertex_len: int) -> bool {
    &&& (t[0] as int) < vertex_len
    &&& (t[1] as int) < vertex_len
    &&& (t[2] as int) < vertex_len
    &&& t[0] != t[1]
    &&& t[1] != t[2]
    &&& t[2] != t[0]
}

/// The canonical keys of the three edges of a triangle.
pub open spec fn tri_edge_keys(t: [u32; 3]) -> Set<u64> {
    set![
        edge_key64(t[0] as int, t[1] as int),
        edge_key64(t[1] as int, t[2] as int),
        edge_key64(t[2] as int, t[0] as int),
    ]
}

/// The canonical edge keys of the first `n` triangles of `ts`.
pub open spec fn edge_keys_upto(ts: Seq<[u32; 3]>, n: int) -> Set<u64>
    decreases n,
{
    if n <= 0 {
        Set::empty()
    } else {
        edge_keys_upto(ts, n - 1).union(tri_edge_keys(ts[n - 1]))
    }
}

/// The canonical edge keys of every triangle of `ts`.
pub open spec fn edge_keys(ts: Seq<[u32; 3]>) -> Set<u64> {
    edge_keys_upto(ts, ts.len() as int)
}

pub proof fn lemma_tri_edge_keys_small(t: [u32; 3])
    ensures
        tri_edge_keys(t).finite(),
        tri_edge_keys(t).len() <= 3,
{
    broadcast use vstd::set::axiom_set_insert_len;
    broadcast use vstd::set::axiom_set_insert_finite;
    broadcast use vstd::set::axiom_set_empty_len;

    assert(tri_edge_keys(t) == Set::<u64>::empty().insert(
        edge_key64(t[0] as int, t[1] as int),
    ).insert(edge_key64(t[1] as int, t[2] as int)).insert(edge_key64(t[2] as int, t[0] as int)));
}

pub proof fn lemma_edge_keys_upto_finite(ts: Seq<[u32; 3]>, n: int)
    requires
        0 <= n,
    ensures
        edge_keys_upto(ts, n).finite(),
        edge_keys_upto(ts, n).len() <= 3 * n,
    decreases n,
{
    if n > 0 {
        lemma_edge_keys_upto_finite(ts, n - 1);
        lemma_tri_edge_keys_small(ts[n - 1]);
        vstd::set::axiom_set_union_finite(edge_keys_upto(ts, n - 1), tri_edge_keys(ts[n - 1]));
        vstd::set_lib::lemma_len_union::<u64>(edge_keys_upto(ts, n - 1), tri_edge_keys(ts[n - 1]));
    }
}

/// The `usize` values below `n`.
pub open spec fn usize_range(n: int) -> Set<usize> {
    Set::new(|k: usize| (k as int) < n)
}

pub proof fn lemma_usize_range_len(n: int)
    requires
        0 <= n <= usize::MAX,
    ensures
        usize_range(n).finite(),
        usize_range(n).len() == n,
    decreases n,
{
    broadcast use vstd::set::group_set_axioms;

    if n > 0 {
        lemma_usize_range_len(n - 1);
        assert(usize_range(n) =~= usize_range(n - 1).insert((n - 1) as usize));
    } else {
        assert(usize_range(0) =~= Set::<usize>::empty());
    }
}

/// `t` is the triangle `(a, b, c)`.
pub open spec fn tri_is(t: [u32; 3], a: int, b: int, c: int) -> bool {
    t[0] == a && t[1] == b && t[2] == c
}

/// The four children of the triangle `parent` stand in `child` at indices
/// `4 * p .. 4 * p + 4`, in the fixed order: the three corner triangles
/// first, each keeping its originating corner as its first vertex, then the
/// center triangle of the three edge midpoints; each midpoint is the one the
/// cache `mids` assigns to its edge.
pub open spec fn children_ok(
    parent: [u32; 3],
    child: Seq<[u32; 3]>,
    mids: Map<u64, usize>,
    p: int,
) -> bool {
    let a = parent[0] as int;
    let b = parent[1] as int;
    let c = parent[2] as int;
    let kab = edge_key64(a, b);
    let kbc = edge_key64(b, c);
    let kca = edge_key64(c, a);
    &&& mids.contains_key(kab)
    &&& mids.contains_key(kbc)
    &&& mids.contains_key(kca)
    &&& tri_is(child[4 * p], a, mids[kab] as int, mids[kca] as int)
    &&& tri_is(child[4 * p + 1], b, mids[kbc] as int, mids[kab] as int)
    &&& tri_is(child[4 * p + 2], c, mids[kca] as int, mids[kbc] as int)
    &&& tri_is(child[4 * p + 3], mids[kab] as int, mids[kbc] as int, mids[kca] as int)
}

/// The four children of a parent triangle `p`, in a map keyed by triangle
/// index: present at `4 * p .. 4 * p + 4`, in the fixed order (corner
/// triangles first, each keeping its corner — here `a`, `b`, `c` — as its
/// first vertex, the center triangle of the three midpoints last), each
/// midpoint being the one the cache `mids` assigns to its edge.
#[verifier::opaque]
pub open spec fn children_ok_map(
    a: int,
    b: int,
    c: int,
    m: Map<usize, [u32; 3]>,
    mids: Map<u64, usize>,
    p: int,
) -> bool {
    let kab = edge_key64(a, b);
    let kbc = edge_key64(b, c);
    let kca = edge_key64(c, a);
    &&& mids.contains_key(kab)
    &&& mids.contains_key(kbc)
    &&& mids.contains_key(kca)
    &&& m.contains_key((4 * p) as usize)
    &&& m.contains_key((4 * p + 1) as usize)
    &&& m.contains_key((4 * p + 2) as usize)
    &&& m.contains_key((4 * p + 3) as usize)
    &&& tri_is(m[(4 * p) as usize], a, mids[kab] as int, mids[kca] as int)
    &&& tri_is(m[(4 * p + 1) as usize], b, mids[kbc] as int, mids[kab] as int)
    &&& tri_is(m[(4 * p + 2) as usize], c, mids[kca] as int, mids[kbc] as int)
    &&& tri_is(m[(4 * p + 3) as usize], mids[kab] as int, mids[kbc] as int, mids[kca] as int)
}

/// Every neighbor link of `m1` is still a link of `m2`: adjacency within one
/// mesh only ever grows.
pub open spec fn links_monotone(
    m1: Map<usize, HashSet<usize>>,
    m2: Map<usize, HashSet<usize>>,
) -> bool {
    forall|v: usize| #[trigger]
        m1.contains_key(v) ==> m2.contains_key(v) && m1[v]@.subset_of(m2[v]@)
}

/// Every value of the parent-to-current vertex map is an index below `hi`.
pub open spec fn prev_bounded(m: Map<u32, usize>, hi: int) -> bool {
    forall|k: u32| #[trigger] m.contains_key(k) ==> m[k] < hi
}

/// No two parent vertices were copied to the same current vertex.
pub open spec fn prev_injective(m: Map<u32, usize>) -> bool {
    forall|k1: u32, k2: u32|
        #![trigger m[k1], m[k2]]
        m.contains_key(k1) && m.contains_key(k2) && k1 != k2 ==> m[k1] != m[k2]
}

/// A vertex index is either a copied parent corner or a midpoint, never both.
pub open spec fn images_disjoint(pm: Map<u32, usize>, mm: Map<u64, usize>) -> bool {
    forall|pk: u32, mk: u64|
        #![trigger pm[pk], mm[mk]]
        pm.contains_key(pk) && mm.contains_key(mk) ==> pm[pk] != mm[mk]
}

/// `v` and `w` are recorded as neighbors of each other.
pub open spec fn linked(nb: Map<usize, HashSet<usize>>, v: usize, w: usize) -> bool {
    &&& nb.contains_key(v)
    &&& nb[v]@.contains(w)
    &&& nb.contains_key(w)
    &&& nb[w]@.contains(v)
}

/// Every cached midpoint is linked both ways with the two endpoints of its
/// edge: the adjacency a subdivision builds is kept alongside the cache.
#[verifier::opaque]
pub open spec fn mids_linked(mm: Map<u64, usize>, nb: Map<usize, HashSet<usize>>) -> bool {
    forall|key: u64| #[trigger]
        mm.contains_key(key) ==> exists|i: int, j: int|
            0 <= i <= u32::MAX && 0 <= j <= u32::MAX && key == edge_key64(i, j) && linked(
                nb,
                i as usize,
                mm[key],
            ) && linked(nb, j as usize, mm[key])
}

/// A link survives any growth of the adjacency map.
pub proof fn lemma_linked_mono(
    nb1: Map<usize, HashSet<usize>>,
    nb2: Map<usize, HashSet<usize>>,
    v: usize,
    w: usize,
)
    requires
        linked(nb1, v, w),
        links_monotone(nb1, nb2),
    ensures
        linked(nb2, v, w),
{
}

/// The cache-linkage invariant survives any growth of the adjacency map.
pub proof fn lemma_mids_linked_mono(
    mm: Map<u64, usize>,
    nb1: Map<usize, HashSet<usize>>,
    nb2: Map<usize, HashSet<usize>>,
)
    requires
        mids_linked(mm, nb1),
        links_monotone(nb1, nb2),
    ensures
        mids_linked(mm, nb2),
{
    reveal(mids_linked);
    assert forall|key: u64| #[trigger] mm.contains_key(key) implies exists|i: int, j: int|
        0 <= i <= u32::MAX && 0 <= j <= u32::MAX && key == edge_key64(i, j) && linked(
            nb2,
            i as usize,
            mm[key],
        ) && linked(nb2, j as usize, mm[key]) by {
        let (wi, wj): (int, int) = choose|wi: int, wj: int|
            0 <= wi <= u32::MAX && 0 <= wj <= u32::MAX && key == edge_key64(wi, wj) && linked(
                nb1,
                wi as usize,
                mm[key],
            ) && linked(nb1, wj as usize, mm[key]);
        lemma_linked_mono(nb1, nb2, wi as usize, mm[key]);
        lemma_linked_mono(nb1, nb2, wj as usize, mm[key]);
        assert(0 <= wi <= u32::MAX && 0 <= wj <= u32::MAX && key == edge_key64(wi, wj) && linked(
            nb2,
            wi as usize,
            mm[key],
        ) && linked(nb2, wj as usize, mm[key]));
    }
}

/// Growth of the adjacency map is transitive.
pub proof fn lemma_links_monotone_trans(
    nb1: Map<usize, HashSet<usize>>,
    nb2: Map<usize, HashSet<usize>>,
    nb3: Map<usize, HashSet<usize>>,
)
    requires
        links_monotone(nb1, nb2),
        links_monotone(nb2, nb3),
    ensures
        links_monotone(nb1, nb3),
{
    assert forall|v: usize| #[trigger]
        nb1.contains_key(v) implies nb3.contains_key(v) && nb1[v]@.subset_of(nb3[v]@) by {
        assert(nb2.contains_key(v) && nb1[v]@.subset_of(nb2[v]@));
        assert(nb3.contains_key(v) && nb2[v]@.subset_of(nb3[v]@));
        assert forall|x: usize| nb1[v]@.contains(x) implies nb3[v]@.contains(x) by {
            assert(nb2[v]@.contains(x));
        }
    }
}

/// Every value of a midpoint cache is a vertex index in `lo .. hi`.
pub open spec fn midpoints_bounded(m: Map<u64, usize>, lo: int, hi: int) -> bool {
    forall|key: u64| #[trigger] m.contains_key(key) ==> lo <= m[key] < hi
}

/// No two cached edges share a midpoint vertex.
pub open spec fn midpoints_injective(m: Map<u64, usize>) -> bool {
    forall|k1: u64, k2: u64|
        #![trigger m[k1], m[k2]]
        m.contains_key(k1) && m.contains_key(k2) && k1 != k2 ==> m[k1] != m[k2]
}

fn edge_key(i: usize, j: usize) -> (key: u64)
    requires
        i <= u32::MAX,
        j <= u32::MAX,
    ensures
        key == edge_key64(i as int, j as int),
{
    let lo: usize = if i <= j {
        i
    } else {
        j
    };
    let hi: usize = if i <= j {
        j
    } else {
        i
    };
    (lo as u64) * 0x1_0000_0000 + (hi as u64)
}

/// Records `n` as a neighbor of `v` in the adjacency map, creating `v`'s
/// neighbor set if it does not exist yet.  Links are only ever added.
pub(crate) fn add_neighbor(neighbors: &mut HashMap<usize, HashSet<usize>>, v: usize, n: usize)
    ensures
        final(neighbors)@.dom() =~= old(neighbors)@.dom().insert(v),
        final(neighbors)@.contains_key(v),
        final(neighbors)@[v]@ == (if old(neighbors)@.contains_key(v) {
            old(neighbors)@[v]@
        } else {
            Set::<usize>::empty()
        }).insert(n),
        forall|w: usize| #[trigger]
            old(neighbors)@.contains_key(w) && w != v ==> final(neighbors)@.contains_key(w)
                && final(neighbors)@[w] == old(neighbors)@[w],
        links_monotone(old(neighbors)@, final(neighbors)@),
{
    let mut s: HashSet<usize> = match neighbors.remove(&v) {
        Some(s) => s,
        None => HashSet::new(),
    };
    s.insert(n);
    neighbors.insert(v, s);
}

/// Looks up, or creates, the vertex at the normalized midpoint of the edge
/// between vertex indices `i` and `j` of `vertices`, deduplicating through
/// the midpoint cache keyed by the canonical edge key.  On creation the new
/// vertex is appended, the cache learns the edge, and both endpoints gain the
/// midpoint as a neighbor (and it gains them).
pub(crate) fn midpoint_for_edge<T: IcosphereVertex>(
    vertices: &mut Vec<T>,
    midpoints: &mut HashMap<u64, usize>,
    neighbors: &mut HashMap<usize, HashSet<usize>>,
    i: usize,
    j: usize,
    binning_depth: usize,
    Ghost(lo): Ghost<int>,
) -> (m: usize)
    requires
        i < old(vertices)@.len(),
        j < old(vertices)@.len(),
        old(vertices)@.len() < u32::MAX as usize,
        lo <= old(vertices)@.len(),
        midpoints_bounded(old(midpoints)@, lo, old(vertices)@.len() as int),
        midpoints_injective(old(midpoints)@),
        mids_linked(old(midpoints)@, old(neighbors)@),
    ensures
        final(midpoints)@.dom() =~= old(midpoints)@.dom().insert(edge_key64(i as int, j as int)),
        final(midpoints)@.contains_key(edge_key64(i as int, j as int)),
        m == final(midpoints)@[edge_key64(i as int, j as int)],
        m < final(vertices)@.len(),
        forall|key: u64| #[trigger]
            old(midpoints)@.contains_key(key) ==> final(midpoints)@.contains_key(key)
                && final(midpoints)@[key] == old(midpoints)@[key],
        old(midpoints)@.contains_key(edge_key64(i as int, j as int))
            ==> final(vertices)@ == old(vertices)@ && final(midpoints)@ == old(midpoints)@,
        !old(midpoints)@.contains_key(edge_key64(i as int, j as int))
            ==> m == old(vertices)@.len()
                && final(vertices)@.len() == old(vertices)@.len() + 1
                && final(midpoints)@ == old(midpoints)@.insert(edge_key64(i as int, j as int), m),
        midpoints_bounded(final(midpoints)@, lo, final(vertices)@.len() as int),
        midpoints_injective(final(midpoints)@),
        old(vertices)@.is_prefix_of(final(vertices)@),
        forall|k: int|
            #![trigger final(vertices)@[k]]
            0 <= k < old(vertices)@.len() ==> final(vertices)@[k] == old(vertices)@[k],
        links_monotone(old(neighbors)@, final(neighbors)@),
        mids_linked(final(midpoints)@, final(neighbors)@),
        linked(final(neighbors)@, i, m),
        linked(final(neighbors)@, j, m),
{
    let key = edge_key(i, j);
    let cached: Option<usize> = match midpoints.get(&key) {
        Some(m) => Some(*m),
        None => None,
    };
    match cached {
        Some(m) => {
            proof {
                reveal(mids_linked);
                let (wi, wj): (int, int) = choose|wi: int, wj: int|
                    0 <= wi <= u32::MAX && 0 <= wj <= u32::MAX && key == edge_key64(wi, wj)
                        && linked(neighbors@, wi as usize, midpoints@[key]) && linked(
                        neighbors@,
                        wj as usize,
                        midpoints@[key],
                    );
                lemma_edge_key_injective(wi, wj, i as int, j as int);
            }
            m
        },
        None => {
            let pa = vertices[i].position();
            let pb = vertices[j].position();
            let mp = crate::vecmath::midpoint_position(pa, pb);
            let m = vertices.len();
            vertices.push(T::from_position(mp, binning_depth));
            midpoints.insert(key, m);
            let ghost nb0 = neighbors@;
            add_neighbor(neighbors, m, i);
            add_neighbor(neighbors, m, j);
            add_neighbor(neighbors, i, m);
            add_neighbor(neighbors, j, m);
            proof {
                reveal(mids_linked);
                assert(linked(neighbors@, i, m) && linked(neighbors@, j, m));
                assert(mids_linked(midpoints@, neighbors@)) by {
                    assert forall|k2: u64| #[trigger]
                        midpoints@.contains_key(k2) implies exists|wi: int, wj: int|
                        0 <= wi <= u32::MAX && 0 <= wj <= u32::MAX && k2 == edge_key64(wi, wj)
                            && linked(neighbors@, wi as usize, midpoints@[k2]) && linked(
                            neighbors@,
                            wj as usize,
                            midpoints@[k2],
                        ) by {
                        if k2 == key {
                            assert(0 <= i as int <= u32::MAX && 0 <= j as int <= u32::MAX && k2
                                == edge_key64(i as int, j as int) && linked(
                                neighbors@,
                                i,
                                midpoints@[k2],
                            ) && linked(neighbors@, j, midpoints@[k2]));
                        } else {
                            let (wi, wj): (int, int) = choose|wi: int, wj: int|
                                0 <= wi <= u32::MAX && 0 <= wj <= u32::MAX && k2 == edge_key64(
                                    wi,
                                    wj,
                                ) && linked(nb0, wi as usize, old(midpoints)@[k2]) && linked(
                                    nb0,
                                    wj as usize,
                                    old(midpoints)@[k2],
                                );
                            lemma_linked_mono(nb0, neighbors@, wi as usize, old(midpoints)@[k2]);
                            lemma_linked_mono(nb0, neighbors@, wj as usize, old(midpoints)@[k2]);
                            assert(0 <= wi <= u32::MAX && 0 <= wj <= u32::MAX && k2 == edge_key64(
                                wi,
                                wj,
                            ) && linked(neighbors@, wi as usize, midpoints@[k2]) && linked(
                                neighbors@,
                                wj as usize,
                                midpoints@[k2],
                            ));
                        }
                    }
                }
            }
            m
        },
    }
}

/// The storage each icosphere vertex must provide: a 3D position, and
/// construction from a position plus the subdivision depth that created the
/// vertex, so payload types can attach depth-dependent data.
pub trait IcosphereVertex: Sized + Clone {
    fn position(&self) -> glam::Vec3;

    fn from_position(position: glam::Vec3, binning_depth: usize) -> Self;
}

/// The common capability of the two mesh representations.
///
/// The logical content of a mesh is given by three spec members: its depth,
/// the map from triangle index to materialised triangle, and the sequence of
/// materialised vertices.  A dense mesh always materialises every index in
/// `0 .. spec_triangle_count(depth)`; a sparse mesh may have gaps, and a
/// missing key means "not yet generated", not an error.
pub trait Icosphere<T: IcosphereVertex>: Sized {
    /// Well-formedness of the representation.
    spec fn wf(&self) -> bool;

    /// The number of subdivisions from the regular icosahedron.
    spec fn spec_binning_depth(&self) -> nat;

    /// The triangles materialised so far, keyed by triangle index.
    spec fn spec_triangles(&self) -> Map<usize, [u32; 3]>;

    /// The vertices materialised so far.
    spec fn spec_vertices(&self) -> Seq<T>;

    /// Every materialised triangle index is in range for the depth, and the
    /// key set is finite.
    proof fn lemma_wf_triangles(&self)
        requires
            self.wf(),
        ensures
            self.spec_triangles().dom().finite(),
            forall|k: usize| #[trigger] self.spec_triangles().contains_key(k)
                ==> k < spec_triangle_count(self.spec_binning_depth()),
            forall|k: usize| #[trigger] self.spec_triangles().contains_key(k)
                ==> tri_ok(self.spec_triangles()[k], self.spec_vertices().len() as int),
    ;

    /// A mesh of the given depth, ready to serve the level manager: fully
    /// built for the dense representation, empty for the sparse one.
    fn create(binning_depth: usize) -> (ico: Self)
        requires
            depth_fits(binning_depth as nat),
        ensures
            ico.wf(),
            ico.spec_binning_depth() == binning_depth,
    ;

    /// The number of subdivisions from the regular icosahedron.
    fn binning_depth(&self) -> (depth: usize)
        requires
            self.wf(),
        ensures
            depth == self.spec_binning_depth(),
    ;

    /// Triangle at the given index; the index must be materialised.
    fn triangle(&self, triangle_index: usize) -> (t: [u32; 3])
        requires
            self.wf(),
            self.spec_triangles().contains_key(triangle_index),
        ensures
            t == self.spec_triangles()[triangle_index],
    ;

    /// List of vertices.
    fn vertices(&self) -> (v: &[T])
        requires
            self.wf(),
        ensures
            v@ == self.spec_vertices(),
    ;

    /// The total possible triangle count at the current binning depth.
    fn total_triangle_count(&self) -> (n: usize)
        requires
            self.wf(),
            depth_fits(self.spec_binning_depth()),
        ensures
            n == spec_triangle_count(self.spec_binning_depth()),
    ;

    /// The total possible vertex count at the current binning depth.
    fn total_vertex_count(&self) -> (n: usize)
        requires
            self.wf(),
            depth_fits(self.spec_binning_depth()),
        ensures
            n == spec_vertex_count(self.spec_binning_depth()),
    ;

    /// The number of triangles actually in memory.
    fn allocated_triangle_count(&self) -> (n: usize)
        requires
            self.wf(),
        ensures
            n == self.spec_triangles().dom().len(),
    ;

    /// The number of vertices actually in memory.
    fn allocated_vertex_count(&self) -> (n: usize)
        requires
            self.wf(),
        ensures
            n == self.spec_vertices().len(),
    ;

    /// Subdivides `previous`'s triangle `parent_index` into four children at
    /// indices `parent_index * 4 .. parent_index * 4 + 4` of this mesh.
    /// `previous` must sit exactly one depth below this mesh and must have
    /// the parent triangle materialised — even on the no-op paths, which
    /// never read it, so that the result is meaningful.  Returns whether any
    /// work was done: the call is a no-op exactly when the first child is
    /// already present.
    fn subdivide_chunk(&mut self, previous: &Self, parent_index: usize) -> (did: bool)
        requires
            old(self).wf(),
            previous.wf(),
            previous.spec_binning_depth() + 1 == old(self).spec_binning_depth(),
            depth_fits(old(self).spec_binning_depth()),
            previous.spec_triangles().contains_key(parent_index),
        ensures
            final(self).wf(),
            final(self).spec_binning_depth() == old(self).spec_binning_depth(),
            did == !old(self).spec_triangles().contains_key((4 * parent_index) as usize),
            !did ==> *final(self) == *old(self),
            forall|k: usize| 4 * parent_index <= k < 4 * parent_index + 4
                ==> final(self).spec_triangles().contains_key(k),
            final(self).spec_triangles().dom() =~= old(self).spec_triangles().dom().union(
                set![
                    (4 * parent_index) as usize,
                    (4 * parent_index + 1) as usize,
                    (4 * parent_index + 2) as usize,
                    (4 * parent_index + 3) as usize,
                ],
            ),
            forall|k: usize| #[trigger] old(self).spec_triangles().contains_key(k)
                ==> final(self).spec_triangles()[k] == old(self).spec_triangles()[k],
    ;

    /// Subdivide the entire mesh: the result, one depth further down, has
    /// exactly the children of every currently materialised triangle, so it
    /// is exactly as complete as this mesh.
    fn subdivide(&self) -> (r: Self)
        requires
            self.wf(),
            depth_fits(self.spec_binning_depth() + 1),
        ensures
            r.wf(),
            r.spec_binning_depth() == self.spec_binning_depth() + 1,
            forall|k: usize| #![auto] r.spec_triangles().contains_key(k)
                <==> self.spec_triangles().contains_key(k / 4),
    ;
}

} // verus!
