//! The dense icosphere builder: eager and fully materialised.

use std::collections::HashMap;
use std::collections::HashSet;
use vstd::prelude::*;

use crate::add_neighbor;
use crate::children_ok;
use crate::depth_fits;
use crate::edge_key64;
use crate::edge_keys;
use crate::edge_keys_upto;
use crate::lemma_depth_fits_bound;
use crate::lemma_edge_key_injective;
use crate::lemma_edge_keys_upto_finite;
use crate::lemma_tri_edge_keys_small;
use crate::midpoint_for_edge;
use crate::midpoints_bounded;
use crate::midpoints_injective;
use crate::pow4;
use crate::spec_triangle_count;
use crate::spec_vertex_count;
use crate::tri_edge_keys;
use crate::tri_is;
use crate::tri_ok;
use crate::Icosphere;
use crate::IcosphereVertex;

verus! {

broadcast use vstd::std_specs::hash::group_hash_axioms, vstd::set::group_set_axioms;

/// The twenty triangles of the regular icosahedron, in their fixed order.
/// Higher levels and external callers may depend on this exact layout.
pub open spec fn is_base_triangles(ts: Seq<[u32; 3]>) -> bool {
    &&& ts.len() == 20
    &&& tri_is(ts[0], 0, 11, 5)
    &&& tri_is(ts[1], 0, 5, 1)
    &&& tri_is(ts[2], 0, 1, 7)
    &&& tri_is(ts[3], 0, 7, 10)
    &&& tri_is(ts[4], 0, 10, 11)
    &&& tri_is(ts[5], 1, 5, 9)
    &&& tri_is(ts[6], 5, 11, 4)
    &&& tri_is(ts[7], 11, 10, 2)
    &&& tri_is(ts[8], 10, 7, 6)
    &&& tri_is(ts[9], 7, 1, 8)
    &&& tri_is(ts[10], 3, 9, 4)
    &&& tri_is(ts[11], 3, 4, 2)
    &&& tri_is(ts[12], 3, 2, 6)
    &&& tri_is(ts[13], 3, 6, 8)
    &&& tri_is(ts[14], 3, 8, 9)
    &&& tri_is(ts[15], 4, 9, 5)
    &&& tri_is(ts[16], 2, 4, 11)
    &&& tri_is(ts[17], 6, 2, 10)
    &&& tri_is(ts[18], 8, 6, 7)
    &&& tri_is(ts[19], 9, 8, 1)
}

/// The fixed 5-neighbor adjacency table of the regular icosahedron: for each
/// of the twelve vertices, exactly the five vertices it shares an edge with.
pub open spec fn is_base_neighbors(m: Map<usize, HashSet<usize>>) -> bool {
    &&& m.dom() =~= set![0usize, 1, 2, 3, 4, 5, 6, 7, 8, 9, 10, 11]
    &&& m[0usize]@ =~= set![11usize, 5, 1, 7, 10]
    &&& m[1usize]@ =~= set![0usize, 5, 9, 7, 8]
    &&& m[2usize]@ =~= set![11usize, 10, 3, 4, 6]
    &&& m[3usize]@ =~= set![9usize, 4, 2, 6, 8]
    &&& m[4usize]@ =~= set![5usize, 11, 3, 9, 2]
    &&& m[5usize]@ =~= set![0usize, 11, 1, 9, 4]
    &&& m[6usize]@ =~= set![10usize, 7, 3, 2, 8]
    &&& m[7usize]@ =~= set![0usize, 1, 10, 6, 8]
    &&& m[8usize]@ =~= set![3usize, 6, 7, 9, 1]
    &&& m[9usize]@ =~= set![1usize, 5, 3, 8, 4]
    &&& m[10usize]@ =~= set![0usize, 7, 11, 2, 6]
    &&& m[11usize]@ =~= set![0usize, 5, 10, 4, 2]
}

fn five_set(a: usize, b: usize, c: usize, d: usize, e: usize) -> (s: HashSet<usize>)
    ensures
        s@ == set![a, b, c, d, e],
{
    let mut s: HashSet<usize> = HashSet::new();
    s.insert(a);
    s.insert(b);
    s.insert(c);
    s.insert(d);
    s.insert(e);
    proof {
        assert(s@ =~= set![a, b, c, d, e]);
    }
    s
}

/// The twenty base triangles have exactly thirty distinct edges: the edge
/// set of the regular icosahedron.
#[verifier::rlimit(100)]
#[verifier::spinoff_prover]
pub proof fn lemma_base_edge_count(ts: Seq<[u32; 3]>)
    requires
        is_base_triangles(ts),
    ensures
        edge_keys(ts).finite(),
        edge_keys(ts).len() == 30,
{
    broadcast use vstd::set::group_set_axioms;

    reveal_with_fuel(edge_keys_upto, 21);
    assert(edge_keys_upto(ts, 0).len() == 0);
        assert(edge_keys_upto(ts, 1) =~= edge_keys_upto(ts, 0).insert(
            edge_key64(0, 11),
        ).insert(edge_key64(11, 5)).insert(edge_key64(5, 0)));
        assert(edge_keys_upto(ts, 1).len() == 3);
        assert(edge_keys_upto(ts, 2) =~= edge_keys_upto(ts, 1).insert(
            edge_key64(0, 5),
        ).insert(edge_key64(5, 1)).insert(edge_key64(1, 0)));
        assert(edge_keys_upto(ts, 2).len() == 5);
        assert(edge_keys_upto(ts, 3) =~= edge_keys_upto(ts, 2).insert(
            edge_key64(0, 1),
        ).insert(edge_key64(1, 7)).insert(edge_key64(7, 0)));
        assert(edge_keys_upto(ts, 3).len() == 7);
        assert(edge_keys_upto(ts, 4) =~= edge_keys_upto(ts, 3).insert(
            edge_key64(0, 7),
        ).insert(edge_key64(7, 10)).insert(edge_key64(10, 0)));
        assert(edge_keys_upto(ts, 4).len() == 9);
        assert(edge_keys_upto(ts, 5) =~= edge_keys_upto(ts, 4).insert(
            edge_key64(0, 10),
        ).insert(edge_key64(10, 11)).insert(edge_key64(11, 0)));
        assert(edge_keys_upto(ts, 5).len() == 10);
        assert(edge_keys_upto(ts, 6) =~= edge_keys_upto(ts, 5).insert(
            edge_key64(1, 5),
        ).insert(edge_key64(5, 9)).insert(edge_key64(9, 1)));
        assert(edge_keys_upto(ts, 6).len() == 12);
        assert(edge_keys_upto(ts, 7) =~= edge_keys_upto(ts, 6).insert(
            edge_key64(5, 11),
        ).insert(edge_key64(11, 4)).insert(edge_key64(4, 5)));
        assert(edge_keys_upto(ts, 7).len() == 14);
        assert(edge_keys_upto(ts, 8) =~= edge_keys_upto(ts, 7).insert(
            edge_key64(11, 10),
        ).insert(edge_key64(10, 2)).insert(edge_key64(2, 11)));
        assert(edge_keys_upto(ts, 8).len() == 16);
        assert(edge_keys_upto(ts, 9) =~= edge_keys_upto(ts, 8).insert(
            edge_key64(10, 7),
        ).insert(edge_key64(7, 6)).insert(edge_key64(6, 10)));
        assert(edge_keys_upto(ts, 9).len() == 18);
        assert(edge_keys_upto(ts, 10) =~= edge_keys_upto(ts, 9).insert(
            edge_key64(7, 1),
        ).insert(edge_key64(1, 8)).insert(edge_key64(8, 7)));
        assert(edge_keys_upto(ts, 10).len() == 20);
        assert(edge_keys_upto(ts, 11) =~= edge_keys_upto(ts, 10).insert(
            edge_key64(3, 9),
        ).insert(edge_key64(9, 4)).insert(edge_key64(4, 3)));
        assert(edge_keys_upto(ts, 11).len() == 23);
        assert(edge_keys_upto(ts, 12) =~= edge_keys_upto(ts, 11).insert(
            edge_key64(3, 4),
        ).insert(edge_key64(4, 2)).insert(edge_key64(2, 3)));
        assert(edge_keys_upto(ts, 12).len() == 25);
        assert(edge_keys_upto(ts, 13) =~= edge_keys_upto(ts, 12).insert(
            edge_key64(3, 2),
        ).insert(edge_key64(2, 6)).insert(edge_key64(6, 3)));
        assert(edge_keys_upto(ts, 13).len() == 27);
        assert(edge_keys_upto(ts, 14) =~= edge_keys_upto(ts, 13).insert(
            edge_key64(3, 6),
        ).insert(edge_key64(6, 8)).insert(edge_key64(8, 3)));
        assert(edge_keys_upto(ts, 14).len() == 29);
        assert(edge_keys_upto(ts, 15) =~= edge_keys_upto(ts, 14).insert(
            edge_key64(3, 8),
        ).insert(edge_key64(8, 9)).insert(edge_key64(9, 3)));
        assert(edge_keys_upto(ts, 15).len() == 30);
        assert(edge_keys_upto(ts, 16) =~= edge_keys_upto(ts, 15).insert(
            edge_key64(4, 9),
        ).insert(edge_key64(9, 5)).insert(edge_key64(5, 4)));
        assert(edge_keys_upto(ts, 16).len() == 30);
        assert(edge_keys_upto(ts, 17) =~= edge_keys_upto(ts, 16).insert(
            edge_key64(2, 4),
        ).insert(edge_key64(4, 11)).insert(edge_key64(11, 2)));
        assert(edge_keys_upto(ts, 17).len() == 30);
        assert(edge_keys_upto(ts, 18) =~= edge_keys_upto(ts, 17).insert(
            edge_key64(6, 2),
        ).insert(edge_key64(2, 10)).insert(edge_key64(10, 6)));
        assert(edge_keys_upto(ts, 18).len() == 30);
        assert(edge_keys_upto(ts, 19) =~= edge_keys_upto(ts, 18).insert(
            edge_key64(8, 6),
        ).insert(edge_key64(6, 7)).insert(edge_key64(7, 8)));
        assert(edge_keys_upto(ts, 19).len() == 30);
        assert(edge_keys_upto(ts, 20) =~= edge_keys_upto(ts, 19).insert(
            edge_key64(9, 8),
        ).insert(edge_key64(8, 1)).insert(edge_key64(1, 9)));
        assert(edge_keys_upto(ts, 20).len() == 30);
}

/// `r` is the canonical subdivision of `parent`: one depth further down,
/// four children per parent triangle in the fixed layout over `r`'s midpoint
/// cache, and exactly one new vertex per distinct parent edge.
pub open spec fn subdivision_of<T: IcosphereVertex>(
    parent: StaticIcosphere<T>,
    r: StaticIcosphere<T>,
) -> bool {
    &&& r.binning_depth == parent.binning_depth + 1
    &&& r.vertices@.len() == parent.vertices@.len() + edge_keys(parent.triangles@).len()
    &&& r.triangles@.len() == 4 * parent.triangles@.len()
    &&& r.midpoints@.dom() =~= edge_keys(parent.triangles@)
    &&& midpoints_bounded(r.midpoints@, parent.vertices@.len() as int, r.vertices@.len() as int)
    &&& forall|p: int|
        0 <= p < parent.triangles@.len() ==> children_ok(
            #[trigger] parent.triangles@[p],
            r.triangles@,
            r.midpoints@,
            p,
        )
}

/// `ico` is the canonical mesh of depth `d`: the exact base icosahedron at
/// depth 0, and the canonical subdivision of a canonical mesh of depth
/// `d - 1` otherwise.
pub open spec fn canonical_mesh<T: IcosphereVertex>(ico: StaticIcosphere<T>, d: nat) -> bool
    decreases d,
{
    &&& ico.binning_depth == d
    &&& if d == 0 {
        ico.vertices@.len() == 12 && is_base_triangles(ico.triangles@) && is_base_neighbors(
            ico.neighbors@,
        )
    } else {
        exists|parent: StaticIcosphere<T>|
            #[trigger] subdivision_of(parent, ico) && canonical_mesh(parent, (d - 1) as nat)
    }
}

/// The edge-midpoint identity, instantiated at the base: the canonical mesh
/// of depth 1 has exactly `vertex_count(1) == 42` vertices, the base twelve
/// plus one midpoint per base edge.
pub proof fn lemma_canonical_vertex_count_depth1<T: IcosphereVertex>(ico: StaticIcosphere<T>)
    requires
        canonical_mesh(ico, 1),
    ensures
        ico.vertices@.len() == spec_vertex_count(1),
{
    assert(exists|parent: StaticIcosphere<T>|
        #[trigger] subdivision_of(parent, ico) && canonical_mesh(parent, 0));
    let parent = choose|parent: StaticIcosphere<T>|
        #[trigger] subdivision_of(parent, ico) && canonical_mesh(parent, 0);
    assert(subdivision_of(parent, ico) && canonical_mesh(parent, 0));
    assert(parent.vertices@.len() == 12 && is_base_triangles(parent.triangles@));
    lemma_base_edge_count(parent.triangles@);
    assert(ico.vertices@.len() == 12 + 30);
    assert(spec_vertex_count(1) == 42) by {
        reveal_with_fuel(pow4, 3);
    }
}

/// A sphere-like shape constructed by subdividing a regular icosahedron and
/// normalizing the resulting coordinates.
///
/// All vertices and triangles are constructed for the entire shape upon
/// creation.  This can take huge amounts of memory at high subdivisions; to
/// construct triangles and vertices on the fly, use a
/// [`SparseIcosphere`](crate::SparseIcosphere).
#[derive(Debug, Clone)]
pub struct StaticIcosphere<T: IcosphereVertex> {
    /// The vertices may be in any order; don't rely on the order of this
    /// list.
    pub vertices: Vec<T>,

    /// Starting from the triangles of the regular icosahedron, each
    /// subdivision splits every triangle into four children, stored
    /// contiguously: the children of `parent` are
    /// `parent * 4 .. parent * 4 + 4`.
    pub triangles: Vec<[u32; 3]>,

    /// For each vertex, the set of directly connected vertices.
    pub neighbors: HashMap<usize, HashSet<usize>>,

    /// Number of subdivisions from the regular icosahedron.
    pub binning_depth: usize,

    /// Midpoint cache of the last subdivision, keyed by canonical edge key.
    /// Meaningless for the regular icosahedron; kept to avoid duplicating
    /// midpoints during construction.
    pub midpoints: HashMap<u64, usize>,
}

impl<T: IcosphereVertex> StaticIcosphere<T> {
    /// The regular icosahedron of binning depth 0: twelve vertices on the
    /// golden-ratio rectangles, twenty triangles and the fixed adjacency
    /// table, in the exact canonical layout.
    pub fn regular() -> (ico: Self)
        ensures
            ico.wf(),
            ico.binning_depth == 0,
            ico.vertices@.len() == 12,
            is_base_triangles(ico.triangles@),
            is_base_neighbors(ico.neighbors@),
    {
        let mut vertices: Vec<T> = Vec::new();
        let mut i: usize = 0;
        while i < 12
            invariant
                i <= 12,
                vertices@.len() == i,
            decreases 12 - i,
        {
            vertices.push(T::from_position(crate::vecmath::base_position(i), 0));
            i = i + 1;
        }

        let mut triangles: Vec<[u32; 3]> = Vec::new();
        triangles.push([0, 11, 5]);
        triangles.push([0, 5, 1]);
        triangles.push([0, 1, 7]);
        triangles.push([0, 7, 10]);
        triangles.push([0, 10, 11]);
        triangles.push([1, 5, 9]);
        triangles.push([5, 11, 4]);
        triangles.push([11, 10, 2]);
        triangles.push([10, 7, 6]);
        triangles.push([7, 1, 8]);
        triangles.push([3, 9, 4]);
        triangles.push([3, 4, 2]);
        triangles.push([3, 2, 6]);
        triangles.push([3, 6, 8]);
        triangles.push([3, 8, 9]);
        triangles.push([4, 9, 5]);
        triangles.push([2, 4, 11]);
        triangles.push([6, 2, 10]);
        triangles.push([8, 6, 7]);
        triangles.push([9, 8, 1]);

        let mut neighbors: HashMap<usize, HashSet<usize>> = HashMap::new();
        neighbors.insert(0, five_set(11, 5, 1, 7, 10));
        neighbors.insert(1, five_set(0, 5, 9, 7, 8));
        neighbors.insert(2, five_set(11, 10, 3, 4, 6));
        neighbors.insert(3, five_set(9, 4, 2, 6, 8));
        neighbors.insert(4, five_set(5, 11, 3, 9, 2));
        neighbors.insert(5, five_set(0, 11, 1, 9, 4));
        neighbors.insert(6, five_set(10, 7, 3, 2, 8));
        neighbors.insert(7, five_set(0, 1, 10, 6, 8));
        neighbors.insert(8, five_set(3, 6, 7, 9, 1));
        neighbors.insert(9, five_set(1, 5, 3, 8, 4));
        neighbors.insert(10, five_set(0, 7, 11, 2, 6));
        neighbors.insert(11, five_set(0, 5, 10, 4, 2));

        let ico = StaticIcosphere {
            vertices,
            triangles,
            neighbors,
            binning_depth: 0,
            midpoints: HashMap::new(),
        };
        proof {
            assert(ico.neighbors@.dom() =~= set![0usize, 1, 2, 3, 4, 5, 6, 7, 8, 9, 10, 11]);
            assert(spec_triangle_count(0) == 20);
            assert(depth_fits(0));
            assert(forall|k: int|
                0 <= k < 20 ==> tri_ok(#[trigger] ico.triangles@[k], 12));
            assert(crate::mids_linked(ico.midpoints@, ico.neighbors@)) by {
                reveal(crate::mids_linked);
            }
        }
        ico
    }

    /// The fully built icosphere at the given binning depth.
    pub fn nth(binning_depth: usize) -> (ico: Self)
        requires
            depth_fits(binning_depth as nat),
        ensures
            ico.wf(),
            ico.binning_depth == binning_depth,
            canonical_mesh(ico, binning_depth as nat),
            binning_depth == 0 ==> ico.vertices@.len() == 12 && is_base_triangles(ico.triangles@)
                && is_base_neighbors(ico.neighbors@),
    {
        let mut ico = Self::regular();
        let mut d: usize = 0;
        while d < binning_depth
            invariant
                d <= binning_depth,
                ico.wf(),
                ico.binning_depth == d,
                canonical_mesh(ico, d as nat),
                binning_depth == 0 ==> ico.vertices@.len() == 12 && is_base_triangles(
                    ico.triangles@,
                ) && is_base_neighbors(ico.neighbors@),
            decreases binning_depth - d,
        {
            proof {
                crate::lemma_depth_fits_monotone((d + 1) as nat, binning_depth as nat);
            }
            let ghost parent = ico;
            ico = ico.subdivide();
            proof {
                assert(subdivision_of(parent, ico) && canonical_mesh(parent, d as nat));
            }
            d = d + 1;
        }
        ico
    }

    /// Hands out the five parts of the mesh, consuming it.
    pub(crate) fn into_parts(self) -> (parts: (
        Vec<T>,
        Vec<[u32; 3]>,
        HashMap<usize, HashSet<usize>>,
        usize,
        HashMap<u64, usize>,
    ))
        ensures
            parts.0 == self.vertices,
            parts.1 == self.triangles,
            parts.2 == self.neighbors,
            parts.3 == self.binning_depth,
            parts.4@ == self.midpoints@,
    {
        let StaticIcosphere { vertices, triangles, neighbors, binning_depth, midpoints } = self;
        (vertices, triangles, neighbors, binning_depth, midpoints)
    }
}

impl<T: IcosphereVertex> Icosphere<T> for StaticIcosphere<T> {
    /// A dense mesh is well formed when it has exactly the triangle count of
    /// its depth, every triangle is three distinct in-bounds corners, and the
    /// midpoint cache holds distinct in-bounds vertex indices.
    open spec fn wf(&self) -> bool {
        &&& depth_fits(self.binning_depth as nat)
        &&& self.triangles@.len() == spec_triangle_count(self.binning_depth as nat)
        &&& self.vertices@.len() <= 20 * pow4(self.binning_depth as nat)
        &&& forall|k: int|
            0 <= k < self.triangles@.len() ==> tri_ok(
                #[trigger] self.triangles@[k],
                self.vertices@.len() as int,
            )
        &&& midpoints_bounded(self.midpoints@, 0, self.vertices@.len() as int)
        &&& midpoints_injective(self.midpoints@)
        &&& crate::mids_linked(self.midpoints@, self.neighbors@)
    }

    open spec fn spec_binning_depth(&self) -> nat {
        self.binning_depth as nat
    }

    open spec fn spec_triangles(&self) -> Map<usize, [u32; 3]> {
        Map::new(|k: usize| (k as int) < self.triangles@.len(), |k: usize| self.triangles@[k as int])
    }

    open spec fn spec_vertices(&self) -> Seq<T> {
        self.vertices@
    }

    proof fn lemma_wf_triangles(&self) {
        crate::lemma_usize_range_len(self.triangles@.len() as int);
        assert(self.spec_triangles().dom() =~= crate::usize_range(self.triangles@.len() as int));
    }

    /// The dense mesh the level manager stores for a depth: fully built.
    fn create(binning_depth: usize) -> (ico: Self) {
        Self::nth(binning_depth)
    }

    fn binning_depth(&self) -> (depth: usize) {
        self.binning_depth
    }

    fn triangle(&self, triangle_index: usize) -> (t: [u32; 3]) {
        self.triangles[triangle_index]
    }

    fn vertices(&self) -> (v: &[T]) {
        self.vertices.as_slice()
    }

    fn total_triangle_count(&self) -> (n: usize) {
        proof {
            assert(spec_triangle_count(self.binning_depth as nat) <= u32::MAX);
        }
        crate::triangle_count(self.binning_depth)
    }

    fn total_vertex_count(&self) -> (n: usize) {
        proof {
            assert(spec_vertex_count(self.binning_depth as nat) <= u32::MAX);
        }
        crate::vertex_count(self.binning_depth)
    }

    /// Equal to the total triangle count: a dense mesh is always full.
    fn allocated_triangle_count(&self) -> (n: usize) {
        proof {
            crate::lemma_usize_range_len(self.triangles@.len() as int);
            assert(self.spec_triangles().dom() =~= crate::usize_range(self.triangles@.len() as int));
        }
        self.triangles.len()
    }

    fn allocated_vertex_count(&self) -> (n: usize) {
        self.vertices.len()
    }

    /// Doesn't do anything: a dense icosphere is already fully subdivided, so
    /// every chunk is always present.
    fn subdivide_chunk(&mut self, previous: &Self, parent_index: usize) -> (did: bool) {
        proof {
            assert(previous.spec_triangles().contains_key(parent_index));
            assert(parent_index < spec_triangle_count(previous.binning_depth as nat));
            assert(spec_triangle_count(self.binning_depth as nat) == 4 * spec_triangle_count(
                previous.binning_depth as nat,
            ));
            assert(self.spec_triangles().dom() =~= self.spec_triangles().dom().union(
                set![
                    (4 * parent_index) as usize,
                    (4 * parent_index + 1) as usize,
                    (4 * parent_index + 2) as usize,
                    (4 * parent_index + 3) as usize,
                ],
            ));
        }
        false
    }

    /// Splits every triangle into four, creating one deduplicated midpoint
    /// vertex per edge; the children stand in the fixed order that
    /// [`children_ok`](crate::children_ok) states, and the new midpoint cache
    /// holds exactly this mesh's edges.
    #[verifier::rlimit(100)]
    #[verifier::spinoff_prover]
    fn subdivide(&self) -> (r: Self)
        ensures
            r.binning_depth == self.binning_depth + 1,
            r.vertices@.len() == self.vertices@.len() + edge_keys(self.triangles@).len(),
            forall|i: int|
                #![trigger r.vertices@[i]]
                0 <= i < self.vertices@.len() ==> vstd::pervasive::cloned::<T>(
                    self.vertices@[i],
                    r.vertices@[i],
                ),
            r.triangles@.len() == 4 * self.triangles@.len(),
            r.midpoints@.dom() =~= edge_keys(self.triangles@),
            midpoints_bounded(
                r.midpoints@,
                self.vertices@.len() as int,
                r.vertices@.len() as int,
            ),
            forall|p: int|
                0 <= p < self.triangles@.len() ==> children_ok(
                    #[trigger] self.triangles@[p],
                    r.triangles@,
                    r.midpoints@,
                    p,
                ),
            subdivision_of(*self, r),
    {
        let parent_len = self.triangles.len();
        let ghost pts = self.triangles@;
        let ghost v0 = self.vertices@.len() as int;
        let ghost d = self.binning_depth as nat;

        let mut vertices: Vec<T> = Vec::new();
        vertices.extend_from_slice(self.vertices.as_slice());
        let mut triangles: Vec<[u32; 3]> = Vec::new();
        let mut neighbors: HashMap<usize, HashSet<usize>> = HashMap::new();
        let mut midpoints: HashMap<u64, usize> = HashMap::new();

        proof {
            assert(midpoints@.dom() =~= edge_keys_upto(pts, 0));
            lemma_depth_fits_bound(d + 1);
            assert(crate::mids_linked(midpoints@, neighbors@)) by {
                reveal(crate::mids_linked);
            }
        }

        let mut p: usize = 0;
        while p < parent_len
            invariant
                p <= parent_len,
                triangles@.len() == 4 * p,
                forall|i: int|
                    #![trigger vertices@[i]]
                    0 <= i < v0 ==> vstd::pervasive::cloned::<T>(
                        self.vertices@[i],
                        vertices@[i],
                    ),
                vertices@.len() == v0 + midpoints@.dom().len(),
                vertices@.len() <= v0 + 3 * p,
                midpoints@.dom() == edge_keys_upto(pts, p as int),
                midpoints_bounded(midpoints@, v0, vertices@.len() as int),
                midpoints_injective(midpoints@),
                crate::mids_linked(midpoints@, neighbors@),
                forall|q: int|
                    0 <= q < p ==> children_ok(#[trigger] pts[q], triangles@, midpoints@, q),
                forall|i: int|
                    0 <= i < triangles@.len() ==> tri_ok(
                        #[trigger] triangles@[i],
                        vertices@.len() as int,
                    ),
            decreases parent_len - p,
        {
            proof {
                assert(tri_ok(pts[p as int], v0));
                assert(80 * pow4(d + 1) <= u32::MAX);
                assert(pow4(d + 1) == 4 * pow4(d));
                assert(vertices@.len() + 3 <= v0 + 3 * (p + 1));
                assert(v0 + 3 * parent_len <= 20 * pow4(d) + 60 * pow4(d));
            }
            let t = self.triangles[p];
            let a = t[0] as usize;
            let b = t[1] as usize;
            let c = t[2] as usize;

            let ghost mids0 = midpoints@;
            let dd = midpoint_for_edge(
                &mut vertices,
                &mut midpoints,
                &mut neighbors,
                a,
                b,
                self.binning_depth + 1,
                Ghost(v0),
            );
            let ee = midpoint_for_edge(
                &mut vertices,
                &mut midpoints,
                &mut neighbors,
                b,
                c,
                self.binning_depth + 1,
                Ghost(v0),
            );
            let ff = midpoint_for_edge(
                &mut vertices,
                &mut midpoints,
                &mut neighbors,
                c,
                a,
                self.binning_depth + 1,
                Ghost(v0),
            );

            let ghost nb_mid = neighbors@;
            add_neighbor(&mut neighbors, dd, ee);
            add_neighbor(&mut neighbors, ee, dd);
            add_neighbor(&mut neighbors, ee, ff);
            add_neighbor(&mut neighbors, ff, ee);
            add_neighbor(&mut neighbors, ff, dd);
            add_neighbor(&mut neighbors, dd, ff);
            proof {
                crate::lemma_mids_linked_mono(midpoints@, nb_mid, neighbors@);
            }

            let du = dd as u32;
            let eu = ee as u32;
            let fu = ff as u32;
            triangles.push([t[0], du, fu]);
            triangles.push([t[1], eu, du]);
            triangles.push([t[2], fu, eu]);
            triangles.push([du, eu, fu]);

            proof {
                assert(pts[p as int] == t);
                assert(midpoints@.dom() =~= edge_keys_upto(pts, p + 1)) by {
                    assert(tri_edge_keys(t) =~= set![
                        edge_key64(a as int, b as int),
                        edge_key64(b as int, c as int),
                        edge_key64(c as int, a as int),
                    ]);
                }
                assert(a != b && b != c && c != a);
                assert(dd != ee && ee != ff && ff != dd) by {
                    if dd == ee {
                        lemma_edge_key_injective(a as int, b as int, b as int, c as int);
                    }
                    if ee == ff {
                        lemma_edge_key_injective(b as int, c as int, c as int, a as int);
                    }
                    if ff == dd {
                        lemma_edge_key_injective(c as int, a as int, a as int, b as int);
                    }
                }
                assert(children_ok(pts[p as int], triangles@, midpoints@, p as int));
                assert(forall|q: int|
                    0 <= q < p ==> children_ok(#[trigger] pts[q], triangles@, midpoints@, q));
            }
            p = p + 1;
        }

        let r = StaticIcosphere {
            vertices,
            triangles,
            neighbors,
            binning_depth: self.binning_depth + 1,
            midpoints,
        };
        proof {
            lemma_edge_keys_upto_finite(pts, pts.len() as int);
            assert(r.triangles@.len() == spec_triangle_count(d + 1));
            assert(r.vertices@.len() <= 20 * pow4(d + 1));
            assert forall|k: usize| #![auto]
                r.spec_triangles().contains_key(k) <==> self.spec_triangles().contains_key(
                    k / 4,
                ) by {
                assert(r.triangles@.len() == 4 * pts.len());
            }
        }
        r
    }
}

} // verus!
