//! The sparse icosphere builder: incremental and partially materialised.

use std::collections::HashMap;
use std::collections::HashSet;
use vstd::prelude::*;

use crate::children_ok_map;
use crate::depth_fits;
use crate::edge_key64;
use crate::images_disjoint;
use crate::lemma_depth_fits_bound;
use crate::lemma_edge_key_injective;
use crate::lemma_usize_range_len;
use crate::lemma_linked_mono;
use crate::lemma_links_monotone_trans;
use crate::lemma_mids_linked_mono;
use crate::linked;
use crate::links_monotone;
use crate::mids_linked;
use crate::midpoint_for_edge;
use crate::midpoints_bounded;
use crate::midpoints_injective;
use crate::pow4;
use crate::prev_bounded;
use crate::prev_injective;
use crate::spec_triangle_count;
use crate::spec_vertex_count;
use crate::tri_ok;
use crate::usize_range;
use crate::Icosphere;
use crate::IcosphereVertex;
use crate::StaticIcosphere;

verus! {

broadcast use vstd::std_specs::hash::group_hash_axioms;

/// The chunk of triangle index `k` (the four-aligned group it belongs to) is
/// materialised as a whole.
#[verifier::opaque]
pub open spec fn chunk_whole(m: Map<usize, [u32; 3]>, k: usize) -> bool {
    let base = 4 * ((k as int) / 4);
    &&& m.contains_key(base as usize)
    &&& m.contains_key((base + 1) as usize)
    &&& m.contains_key((base + 2) as usize)
    &&& m.contains_key((base + 3) as usize)
}

/// The chunk of parent triangle `p` was generated in `s` from the parent
/// triangle `pt`: its corners were copied through the parent-to-current
/// vertex map, and the four children follow the canonical layout over those
/// copies and `s`'s own midpoint cache.
#[verifier::opaque]
pub open spec fn chunk_generated_from<T: IcosphereVertex>(
    s: SparseIcosphere<T>,
    pt: [u32; 3],
    p: int,
) -> bool {
    &&& s.previous_vertices@.contains_key(pt[0])
    &&& s.previous_vertices@.contains_key(pt[1])
    &&& s.previous_vertices@.contains_key(pt[2])
    &&& children_ok_map(
        s.previous_vertices@[pt[0]] as int,
        s.previous_vertices@[pt[1]] as int,
        s.previous_vertices@[pt[2]] as int,
        s.triangles@,
        s.midpoints@,
        p,
    )
    &&& chunk_links(
        s,
        s.previous_vertices@[pt[0]],
        s.previous_vertices@[pt[1]],
        s.previous_vertices@[pt[2]],
    )
}

/// The adjacency a generated chunk leaves behind: each of the three edge
/// midpoints of the corner triple `(a, b, c)` is linked both ways with the
/// edge's two endpoints, and the three midpoints are linked pairwise.
pub open spec fn chunk_links<T: IcosphereVertex>(
    s: SparseIcosphere<T>,
    a: usize,
    b: usize,
    c: usize,
) -> bool {
    let mab = s.midpoints@[edge_key64(a as int, b as int)];
    let mbc = s.midpoints@[edge_key64(b as int, c as int)];
    let mca = s.midpoints@[edge_key64(c as int, a as int)];
    &&& linked(s.neighbors@, a, mab) && linked(s.neighbors@, b, mab)
    &&& linked(s.neighbors@, b, mbc) && linked(s.neighbors@, c, mbc)
    &&& linked(s.neighbors@, c, mca) && linked(s.neighbors@, a, mca)
    &&& linked(s.neighbors@, mab, mbc) && linked(s.neighbors@, mbc, mca) && linked(
        s.neighbors@,
        mca,
        mab,
    )
}

/// Each corner of the parent triangle that was not yet known to the
/// parent-to-current vertex map before the call now holds, at its copied
/// index, a clone of the parent mesh's corner vertex.
pub open spec fn corners_cloned<T: IcosphereVertex>(
    pre: SparseIcosphere<T>,
    post: SparseIcosphere<T>,
    previous: SparseIcosphere<T>,
    parent_index: usize,
) -> bool {
    let pt = previous.triangles@[parent_index];
    &&& (!pre.previous_vertices@.contains_key(pt[0]) ==> vstd::pervasive::cloned::<T>(
        previous.vertices@[pt[0] as int],
        post.vertices@[post.previous_vertices@[pt[0]] as int],
    ))
    &&& (!pre.previous_vertices@.contains_key(pt[1]) ==> vstd::pervasive::cloned::<T>(
        previous.vertices@[pt[1] as int],
        post.vertices@[post.previous_vertices@[pt[1]] as int],
    ))
    &&& (!pre.previous_vertices@.contains_key(pt[2]) ==> vstd::pervasive::cloned::<T>(
        previous.vertices@[pt[2] as int],
        post.vertices@[post.previous_vertices@[pt[2]] as int],
    ))
}

/// `r` is the sparse conversion of the dense mesh `ico`: same depth, vertex
/// list, adjacency and midpoint cache, triangle `k` of the dense list stored
/// under key `k`, and an empty parent-to-current vertex map.
pub open spec fn converted_from<T: IcosphereVertex>(
    ico: StaticIcosphere<T>,
    r: SparseIcosphere<T>,
) -> bool {
    &&& r.binning_depth == ico.binning_depth
    &&& r.vertices@ == ico.vertices@
    &&& r.neighbors@ == ico.neighbors@
    &&& r.midpoints@ == ico.midpoints@
    &&& r.previous_vertices@ =~= Map::<u32, usize>::empty()
    &&& forall|k: usize| #![auto] r.triangles@.contains_key(k) <==> (k as int) < ico.triangles@.len()
    &&& forall|k: usize| #[trigger]
        r.triangles@.contains_key(k) ==> r.triangles@[k] == ico.triangles@[k as int]
}

/// A fully materialised key set (every index below `n` present) whose
/// cardinality says so.
proof fn lemma_full_dom(dom: Set<usize>, n: int)
    requires
        dom.finite(),
        0 <= n <= usize::MAX,
        forall|k: usize| #[trigger] dom.contains(k) ==> (k as int) < n,
        dom.len() == n,
    ensures
        forall|k: usize| (k as int) < n ==> dom.contains(k),
{
    broadcast use vstd::set::group_set_axioms;

    lemma_usize_range_len(n);
    assert forall|k: usize| (k as int) < n implies dom.contains(k) by {
        if !dom.contains(k) {
            assert(dom.subset_of(usize_range(n).remove(k)));
            vstd::set_lib::lemma_len_subset(dom, usize_range(n).remove(k));
        }
    }
}

/// Copies the parent-depth vertex `pv` of `source` into `vertices`, unless
/// the parent-to-current map already knows it, and returns its index in
/// `vertices`.  A corner shared by two chunks is copied at most once.
fn copy_corner<T: IcosphereVertex>(
    vertices: &mut Vec<T>,
    previous_vertices: &mut HashMap<u32, usize>,
    source: &Vec<T>,
    pv: u32,
    Ghost(mids): Ghost<Map<u64, usize>>,
) -> (idx: usize)
    requires
        (pv as int) < source@.len(),
        old(vertices)@.len() < u32::MAX as usize,
        prev_bounded(old(previous_vertices)@, old(vertices)@.len() as int),
        prev_injective(old(previous_vertices)@),
        midpoints_bounded(mids, 0, old(vertices)@.len() as int),
        images_disjoint(old(previous_vertices)@, mids),
    ensures
        final(previous_vertices)@.dom() =~= old(previous_vertices)@.dom().insert(pv),
        final(previous_vertices)@.contains_key(pv),
        idx == final(previous_vertices)@[pv],
        idx < final(vertices)@.len(),
        forall|k: u32| #[trigger]
            old(previous_vertices)@.contains_key(k) ==> final(previous_vertices)@.contains_key(k)
                && final(previous_vertices)@[k] == old(previous_vertices)@[k],
        old(previous_vertices)@.contains_key(pv)
            ==> final(vertices)@ == old(vertices)@
                && final(previous_vertices)@ == old(previous_vertices)@,
        !old(previous_vertices)@.contains_key(pv)
            ==> idx == old(vertices)@.len()
                && final(vertices)@.len() == old(vertices)@.len() + 1
                && final(previous_vertices)@ == old(previous_vertices)@.insert(pv, idx),
        prev_bounded(final(previous_vertices)@, final(vertices)@.len() as int),
        prev_injective(final(previous_vertices)@),
        midpoints_bounded(mids, 0, final(vertices)@.len() as int),
        images_disjoint(final(previous_vertices)@, mids),
        old(vertices)@.is_prefix_of(final(vertices)@),
        forall|k: int|
            #![trigger final(vertices)@[k]]
            0 <= k < old(vertices)@.len() ==> final(vertices)@[k] == old(vertices)@[k],
        !old(previous_vertices)@.contains_key(pv) ==> vstd::pervasive::cloned::<T>(
            source@[pv as int],
            final(vertices)@[idx as int],
        ),
{
    let cached: Option<usize> = match previous_vertices.get(&pv) {
        Some(i) => Some(*i),
        None => None,
    };
    match cached {
        Some(i) => i,
        None => {
            let v = source[pv as usize].clone();
            let idx = vertices.len();
            vertices.push(v);
            previous_vertices.insert(pv, idx);
            idx
        },
    }
}


/// The representation invariant of a sparse mesh, beyond its depth being
/// feasible: every materialised triangle index is in range and belongs to a
/// fully materialised chunk, every triangle is three distinct in-bounds
/// corners, the vertex list has no more than three vertices for every two
/// triangles, and the two caches hold distinct in-bounds vertex indices of
/// the two disjoint kinds (copied corners and midpoints).
#[verifier::opaque]
pub open spec fn sparse_wf_parts<T: IcosphereVertex>(s: SparseIcosphere<T>) -> bool {
    &&& forall|k: usize| #[trigger]
        s.triangles@.contains_key(k) ==> k < spec_triangle_count(s.binning_depth as nat)
    &&& forall|k: usize| #[trigger]
        s.triangles@.contains_key(k) ==> tri_ok(s.triangles@[k], s.vertices@.len() as int)
    &&& forall|k: usize| #[trigger] s.triangles@.contains_key(k) ==> chunk_whole(s.triangles@, k)
    &&& 2 * s.vertices@.len() <= 3 * s.triangles@.dom().len()
    &&& midpoints_bounded(s.midpoints@, 0, s.vertices@.len() as int)
    &&& midpoints_injective(s.midpoints@)
    &&& prev_bounded(s.previous_vertices@, s.vertices@.len() as int)
    &&& prev_injective(s.previous_vertices@)
    &&& images_disjoint(s.previous_vertices@, s.midpoints@)
    &&& mids_linked(s.midpoints@, s.neighbors@)
}

/// A sphere-like shape equivalent to a [`StaticIcosphere`] that stores only
/// the triangles and vertices actually requested so far: a missing triangle
/// index means "not yet generated", not an error.
pub struct SparseIcosphere<T: IcosphereVertex> {
    /// Since vertices are added on the fly as needed, don't expect this to be
    /// in any particular order.
    pub vertices: Vec<T>,

    /// Sparse map of triangle indices, addressed exactly as the dense
    /// representation: the children of `parent` are
    /// `parent * 4 .. parent * 4 + 4`; only generated keys are present.
    pub triangles: HashMap<usize, [u32; 3]>,

    /// Sparse map from vertex index to the set of its neighbor vertices.
    pub neighbors: HashMap<usize, HashSet<usize>>,

    /// Number of subdivisions from the regular icosahedron.
    pub binning_depth: usize,

    /// Midpoint cache, keyed by canonical edge key over this mesh's own
    /// vertex indices.  Meaningless for the regular icosahedron.
    pub midpoints: HashMap<u64, usize>,

    /// Map from a parent-depth vertex index to the corresponding vertex index
    /// of this mesh, so a corner shared by two chunks is copied only once.
    pub previous_vertices: HashMap<u32, usize>,
}

impl<T: IcosphereVertex> SparseIcosphere<T> {
    /// Converts a [`StaticIcosphere`] into a [`SparseIcosphere`].  The
    /// resulting sparse icosphere is fully generated and keeps the vertex
    /// list, triangle layout and adjacency of the dense mesh unchanged.
    #[verifier::rlimit(60)]
    #[verifier::spinoff_prover]
    pub fn from_static(ico: StaticIcosphere<T>) -> (r: Self)
        requires
            ico.wf(),
        ensures
            r.wf(),
            r.binning_depth == ico.binning_depth,
            r.vertices@ == ico.vertices@,
            r.neighbors@ == ico.neighbors@,
            r.triangles@.dom().len() == ico.triangles@.len(),
            forall|k: usize| #![auto]
                r.triangles@.contains_key(k) <==> (k as int) < ico.triangles@.len(),
            forall|k: usize| #[trigger]
                r.triangles@.contains_key(k) ==> r.triangles@[k] == ico.triangles@[k as int],
            r.midpoints@ == ico.midpoints@,
            r.previous_vertices@ =~= Map::<u32, usize>::empty(),
            converted_from(ico, r),
    {
        let StaticIcosphere { vertices, triangles: tvec, neighbors, binning_depth, midpoints } =
            ico;
        let total = tvec.len();
        let mut triangles: HashMap<usize, [u32; 3]> = HashMap::new();
        let mut i: usize = 0;
        while i < total
            invariant
                i <= total,
                triangles@.dom().len() == i,
                forall|k: usize| #![auto] triangles@.contains_key(k) <==> (k as int) < i,
                forall|k: usize| #[trigger]
                    triangles@.contains_key(k) ==> triangles@[k] == tvec@[k as int],
            decreases total - i,
        {
            let ghost before = triangles@.dom();
            triangles.insert(i, tvec[i]);
            proof {
                broadcast use vstd::set::group_set_axioms;

                assert(triangles@.dom() =~= before.insert(i));
            }
            i = i + 1;
        }
        let r = SparseIcosphere {
            vertices,
            triangles,
            neighbors,
            binning_depth,
            midpoints,
            previous_vertices: HashMap::new(),
        };
        proof {
            let d = r.binning_depth as nat;
            assert(spec_triangle_count(d) == 4 * (5 * pow4(d)));
            assert forall|k: usize| #[trigger] r.triangles@.contains_key(k) implies chunk_whole(
                r.triangles@,
                k,
            ) by {
                reveal(chunk_whole);
                let base = 4 * ((k as int) / 4);
                assert(base + 3 < spec_triangle_count(d));
            }
            assert(mids_linked(r.midpoints@, r.neighbors@));
            assert(sparse_wf_parts(r)) by {
                reveal(sparse_wf_parts);
            }
        }
        r
    }

    /// The regular icosahedron of binning depth 0, fully generated.
    pub fn regular() -> (r: Self)
        ensures
            r.wf(),
            r.binning_depth == 0,
            r.vertices@.len() == 12,
            crate::is_base_neighbors(r.neighbors@),
            forall|k: usize| #![auto] r.triangles@.contains_key(k) <==> k < 20,
            exists|ico: StaticIcosphere<T>|
                #[trigger] converted_from(ico, r) && crate::canonical_mesh(ico, 0),
    {
        let dense: StaticIcosphere<T> = StaticIcosphere::regular();
        let ghost gdense = dense;
        let r = Self::from_static(dense);
        proof {
            assert(converted_from(gdense, r) && crate::canonical_mesh(gdense, 0));
        }
        r
    }

    /// Construct a sparse icosphere at the given binning depth that is empty,
    /// i.e. not generated yet.
    pub fn empty(binning_depth: usize) -> (r: Self)
        requires
            depth_fits(binning_depth as nat),
        ensures
            r.wf(),
            r.binning_depth == binning_depth,
            r.vertices@.len() == 0,
            r.triangles@ =~= Map::<usize, [u32; 3]>::empty(),
            r.neighbors@ =~= Map::<usize, HashSet<usize>>::empty(),
            r.midpoints@ =~= Map::<u64, usize>::empty(),
            r.previous_vertices@ =~= Map::<u32, usize>::empty(),
    {
        let r = SparseIcosphere {
            vertices: Vec::new(),
            triangles: HashMap::new(),
            neighbors: HashMap::new(),
            binning_depth,
            midpoints: HashMap::new(),
            previous_vertices: HashMap::new(),
        };
        proof {
            broadcast use vstd::set::group_set_axioms;

            assert(r.triangles@.dom() =~= Set::<usize>::empty());
            assert(mids_linked(r.midpoints@, r.neighbors@)) by {
                reveal(mids_linked);
            }
            assert(sparse_wf_parts(r)) by {
                reveal(sparse_wf_parts);
            }
        }
        r
    }

    /// Construct a sparse icosphere at the given binning depth that is
    /// completely generated.
    pub fn filled(binning_depth: usize) -> (r: Self)
        requires
            depth_fits(binning_depth as nat),
        ensures
            r.wf(),
            r.binning_depth == binning_depth,
            forall|k: usize| #![auto]
                r.triangles@.contains_key(k) <==> k < spec_triangle_count(binning_depth as nat),
            exists|ico: StaticIcosphere<T>|
                #[trigger] converted_from(ico, r) && crate::canonical_mesh(
                    ico,
                    binning_depth as nat,
                ),
    {
        let dense: StaticIcosphere<T> = StaticIcosphere::nth(binning_depth);
        let ghost gdense = dense;
        let r = Self::from_static(dense);
        proof {
            assert(converted_from(gdense, r) && crate::canonical_mesh(
                gdense,
                binning_depth as nat,
            ));
        }
        r
    }

    /// Copies the three corner vertices of `previous`'s triangle
    /// `parent_index` into this mesh, deduplicating through the
    /// parent-to-current vertex map, and returns their indices in this mesh.
    /// Only the vertex list and that map change.
    #[verifier::rlimit(60)]
    #[verifier::spinoff_prover]
    fn copy_chunk_corners(&mut self, previous: &Self, parent_index: usize) -> (corners: (
        usize,
        usize,
        usize,
    ))
        requires
            previous.triangles@.contains_key(parent_index),
            tri_ok(previous.triangles@[parent_index], previous.vertices@.len() as int),
            old(self).vertices@.len() + 8 <= u32::MAX,
            midpoints_bounded(old(self).midpoints@, 0, old(self).vertices@.len() as int),
            midpoints_injective(old(self).midpoints@),
            prev_bounded(old(self).previous_vertices@, old(self).vertices@.len() as int),
            prev_injective(old(self).previous_vertices@),
            images_disjoint(old(self).previous_vertices@, old(self).midpoints@),
        ensures
            final(self).binning_depth == old(self).binning_depth,
            final(self).triangles@ == old(self).triangles@,
            final(self).midpoints@ == old(self).midpoints@,
            final(self).neighbors@ == old(self).neighbors@,
            old(self).vertices@.is_prefix_of(final(self).vertices@),
            final(self).vertices@.len() <= old(self).vertices@.len() + 3,
            corners.0 != corners.1 && corners.1 != corners.2 && corners.2 != corners.0,
            corners.0 < final(self).vertices@.len(),
            corners.1 < final(self).vertices@.len(),
            corners.2 < final(self).vertices@.len(),
            final(self).previous_vertices@.contains_key(previous.triangles@[parent_index][0]),
            final(self).previous_vertices@.contains_key(previous.triangles@[parent_index][1]),
            final(self).previous_vertices@.contains_key(previous.triangles@[parent_index][2]),
            corners.0 == final(self).previous_vertices@[previous.triangles@[parent_index][0]],
            corners.1 == final(self).previous_vertices@[previous.triangles@[parent_index][1]],
            corners.2 == final(self).previous_vertices@[previous.triangles@[parent_index][2]],
            forall|k: u32| #[trigger]
                old(self).previous_vertices@.contains_key(k)
                    ==> final(self).previous_vertices@.contains_key(k)
                        && final(self).previous_vertices@[k] == old(self).previous_vertices@[k],
            !old(self).previous_vertices@.contains_key(previous.triangles@[parent_index][0])
                ==> vstd::pervasive::cloned::<T>(
                    previous.vertices@[previous.triangles@[parent_index][0] as int],
                    final(self).vertices@[corners.0 as int],
                ),
            !old(self).previous_vertices@.contains_key(previous.triangles@[parent_index][1])
                ==> vstd::pervasive::cloned::<T>(
                    previous.vertices@[previous.triangles@[parent_index][1] as int],
                    final(self).vertices@[corners.1 as int],
                ),
            !old(self).previous_vertices@.contains_key(previous.triangles@[parent_index][2])
                ==> vstd::pervasive::cloned::<T>(
                    previous.vertices@[previous.triangles@[parent_index][2] as int],
                    final(self).vertices@[corners.2 as int],
                ),
            midpoints_bounded(final(self).midpoints@, 0, final(self).vertices@.len() as int),
            midpoints_injective(final(self).midpoints@),
            prev_bounded(final(self).previous_vertices@, final(self).vertices@.len() as int),
            prev_injective(final(self).previous_vertices@),
            images_disjoint(final(self).previous_vertices@, final(self).midpoints@),
    {
        let pt = *previous.triangles.get(&parent_index).unwrap();
        let a = copy_corner(
            &mut self.vertices,
            &mut self.previous_vertices,
            &previous.vertices,
            pt[0],
            Ghost(self.midpoints@),
        );
        let b = copy_corner(
            &mut self.vertices,
            &mut self.previous_vertices,
            &previous.vertices,
            pt[1],
            Ghost(self.midpoints@),
        );
        let c = copy_corner(
            &mut self.vertices,
            &mut self.previous_vertices,
            &previous.vertices,
            pt[2],
            Ghost(self.midpoints@),
        );
        (a, b, c)
    }

    /// Creates or reuses the midpoint vertices of the three edges of the
    /// corner triple `(a, b, c)` of this mesh, caching each under its
    /// canonical edge key, and links the three midpoints pairwise as
    /// neighbors.  Only the vertex list, the midpoint cache and the
    /// adjacency map change, and neighbor links are only added.
    #[verifier::rlimit(60)]
    #[verifier::spinoff_prover]
    fn make_chunk_midpoints(&mut self, a: usize, b: usize, c: usize) -> (mids: (
        usize,
        usize,
        usize,
    ))
        requires
            a < old(self).vertices@.len(),
            b < old(self).vertices@.len(),
            c < old(self).vertices@.len(),
            a != b && b != c && c != a,
            old(self).vertices@.len() + 5 <= u32::MAX,
            midpoints_bounded(old(self).midpoints@, 0, old(self).vertices@.len() as int),
            midpoints_injective(old(self).midpoints@),
            prev_bounded(old(self).previous_vertices@, old(self).vertices@.len() as int),
            prev_injective(old(self).previous_vertices@),
            images_disjoint(old(self).previous_vertices@, old(self).midpoints@),
            mids_linked(old(self).midpoints@, old(self).neighbors@),
        ensures
            final(self).binning_depth == old(self).binning_depth,
            final(self).triangles@ == old(self).triangles@,
            final(self).previous_vertices@ == old(self).previous_vertices@,
            old(self).vertices@.is_prefix_of(final(self).vertices@),
            forall|k: int|
                #![trigger final(self).vertices@[k]]
                0 <= k < old(self).vertices@.len()
                    ==> final(self).vertices@[k] == old(self).vertices@[k],
            final(self).vertices@.len() <= old(self).vertices@.len() + 3,
            mids.0 != mids.1 && mids.1 != mids.2 && mids.2 != mids.0,
            mids.0 < final(self).vertices@.len(),
            mids.1 < final(self).vertices@.len(),
            mids.2 < final(self).vertices@.len(),
            final(self).midpoints@.contains_key(edge_key64(a as int, b as int)),
            final(self).midpoints@.contains_key(edge_key64(b as int, c as int)),
            final(self).midpoints@.contains_key(edge_key64(c as int, a as int)),
            mids.0 == final(self).midpoints@[edge_key64(a as int, b as int)],
            mids.1 == final(self).midpoints@[edge_key64(b as int, c as int)],
            mids.2 == final(self).midpoints@[edge_key64(c as int, a as int)],
            forall|key: u64| #[trigger]
                old(self).midpoints@.contains_key(key) ==> final(self).midpoints@.contains_key(key)
                    && final(self).midpoints@[key] == old(self).midpoints@[key],
            midpoints_bounded(final(self).midpoints@, 0, final(self).vertices@.len() as int),
            midpoints_injective(final(self).midpoints@),
            prev_bounded(final(self).previous_vertices@, final(self).vertices@.len() as int),
            prev_injective(final(self).previous_vertices@),
            images_disjoint(final(self).previous_vertices@, final(self).midpoints@),
            links_monotone(old(self).neighbors@, final(self).neighbors@),
            mids_linked(final(self).midpoints@, final(self).neighbors@),
            linked(final(self).neighbors@, a, mids.0) && linked(final(self).neighbors@, b, mids.0),
            linked(final(self).neighbors@, b, mids.1) && linked(final(self).neighbors@, c, mids.1),
            linked(final(self).neighbors@, c, mids.2) && linked(final(self).neighbors@, a, mids.2),
            linked(final(self).neighbors@, mids.0, mids.1),
            linked(final(self).neighbors@, mids.1, mids.2),
            linked(final(self).neighbors@, mids.2, mids.0),
    {
        let ghost len0 = self.vertices@.len() as int;
        let dd = midpoint_for_edge(
            &mut self.vertices,
            &mut self.midpoints,
            &mut self.neighbors,
            a,
            b,
            self.binning_depth,
            Ghost(0),
        );
        let ghost nb1 = self.neighbors@;
        let ee = midpoint_for_edge(
            &mut self.vertices,
            &mut self.midpoints,
            &mut self.neighbors,
            b,
            c,
            self.binning_depth,
            Ghost(0),
        );
        let ghost nb2 = self.neighbors@;
        let ff = midpoint_for_edge(
            &mut self.vertices,
            &mut self.midpoints,
            &mut self.neighbors,
            c,
            a,
            self.binning_depth,
            Ghost(0),
        );

        let ghost nb3 = self.neighbors@;
        crate::add_neighbor(&mut self.neighbors, dd, ee);
        let ghost na = self.neighbors@;
        crate::add_neighbor(&mut self.neighbors, ee, dd);
        let ghost nc = self.neighbors@;
        crate::add_neighbor(&mut self.neighbors, ee, ff);
        let ghost nd = self.neighbors@;
        crate::add_neighbor(&mut self.neighbors, ff, ee);
        let ghost ne = self.neighbors@;
        crate::add_neighbor(&mut self.neighbors, ff, dd);
        let ghost nf = self.neighbors@;
        crate::add_neighbor(&mut self.neighbors, dd, ff);

        proof {
            lemma_linked_mono(nb1, nb2, a, dd);
            lemma_linked_mono(nb1, nb2, b, dd);
            lemma_linked_mono(nb2, nb3, a, dd);
            lemma_linked_mono(nb2, nb3, b, dd);
            lemma_linked_mono(nb2, nb3, b, ee);
            lemma_linked_mono(nb2, nb3, c, ee);
            lemma_links_monotone_trans(nb3, na, nc);
            lemma_links_monotone_trans(nb3, nc, nd);
            lemma_links_monotone_trans(nb3, nd, ne);
            lemma_links_monotone_trans(nb3, ne, nf);
            lemma_links_monotone_trans(nb3, nf, self.neighbors@);
            lemma_mids_linked_mono(self.midpoints@, nb3, self.neighbors@);
            lemma_linked_mono(nb3, self.neighbors@, a, dd);
            lemma_linked_mono(nb3, self.neighbors@, b, dd);
            lemma_linked_mono(nb3, self.neighbors@, b, ee);
            lemma_linked_mono(nb3, self.neighbors@, c, ee);
            assert(linked(self.neighbors@, dd, ee) && linked(self.neighbors@, ee, ff) && linked(
                self.neighbors@,
                ff,
                dd,
            ));
            assert(dd != ee && ee != ff && ff != dd) by {
                if dd == ee {
                    lemma_edge_key_injective(a as int, b as int, b as int, c as int);
                }
                if ee == ff {
                    lemma_edge_key_injective(b as int, c as int, c as int, a as int);
                }
                if ff == dd {
                    lemma_edge_key_injective(c as int, a as int, a as int, b as int);
                }
            }
            assert(images_disjoint(self.previous_vertices@, self.midpoints@)) by {
                assert forall|pk: u32, mk: u64|
                    #![trigger self.previous_vertices@[pk], self.midpoints@[mk]]
                    self.previous_vertices@.contains_key(pk) && self.midpoints@.contains_key(
                        mk,
                    ) implies self.previous_vertices@[pk] != self.midpoints@[mk] by {
                    if !old(self).midpoints@.contains_key(mk) {
                        assert(self.midpoints@[mk] >= len0);
                        assert(self.previous_vertices@[pk] < len0);
                    }
                }
            }
        }
        (dd, ee, ff)
    }

    /// The four members of the whole chunk containing `k` are present.
    proof fn lemma_chunk_whole_parts(m: Map<usize, [u32; 3]>, k: usize)
        requires
            chunk_whole(m, k),
        ensures
            m.contains_key((4 * ((k as int) / 4)) as usize),
            m.contains_key((4 * ((k as int) / 4) + 1) as usize),
            m.contains_key((4 * ((k as int) / 4) + 2) as usize),
            m.contains_key((4 * ((k as int) / 4) + 3) as usize),
    {
        reveal(chunk_whole);
    }

    /// A chunk whose four members are present is whole.
    proof fn lemma_chunk_whole_intro(m: Map<usize, [u32; 3]>, k: usize)
        requires
            m.contains_key((4 * ((k as int) / 4)) as usize),
            m.contains_key((4 * ((k as int) / 4) + 1) as usize),
            m.contains_key((4 * ((k as int) / 4) + 2) as usize),
            m.contains_key((4 * ((k as int) / 4) + 3) as usize),
        ensures
            chunk_whole(m, k),
    {
        reveal(chunk_whole);
    }

    /// A whole chunk stays whole when the key set only grows.
    proof fn lemma_chunk_whole_mono(m1: Map<usize, [u32; 3]>, m2: Map<usize, [u32; 3]>, k: usize)
        requires
            chunk_whole(m1, k),
            forall|j: usize| #[trigger] m1.contains_key(j) ==> m2.contains_key(j),
        ensures
            chunk_whole(m2, k),
    {
        reveal(chunk_whole);
    }

    /// A generated chunk stays generated in the canonical layout when the
    /// triangle map, the parent-to-current vertex map and the midpoint cache
    /// only gain entries.
    proof fn lemma_chunk_generated_mono(s1: Self, s2: Self, pt: [u32; 3], p: int)
        requires
            chunk_generated_from(s1, pt, p),
            forall|k: u32| #[trigger]
                s1.previous_vertices@.contains_key(k) ==> s2.previous_vertices@.contains_key(k)
                    && s2.previous_vertices@[k] == s1.previous_vertices@[k],
            forall|key: u64| #[trigger]
                s1.midpoints@.contains_key(key) ==> s2.midpoints@.contains_key(key)
                    && s2.midpoints@[key] == s1.midpoints@[key],
            forall|k: usize| #[trigger]
                s1.triangles@.contains_key(k) ==> s2.triangles@.contains_key(k)
                    && s2.triangles@[k] == s1.triangles@[k],
            links_monotone(s1.neighbors@, s2.neighbors@),
        ensures
            chunk_generated_from(s2, pt, p),
    {
        reveal(chunk_generated_from);
        reveal(children_ok_map);
        let a = s1.previous_vertices@[pt[0]];
        let b = s1.previous_vertices@[pt[1]];
        let c = s1.previous_vertices@[pt[2]];
        let mab = s1.midpoints@[edge_key64(a as int, b as int)];
        let mbc = s1.midpoints@[edge_key64(b as int, c as int)];
        let mca = s1.midpoints@[edge_key64(c as int, a as int)];
        lemma_linked_mono(s1.neighbors@, s2.neighbors@, a, mab);
        lemma_linked_mono(s1.neighbors@, s2.neighbors@, b, mab);
        lemma_linked_mono(s1.neighbors@, s2.neighbors@, b, mbc);
        lemma_linked_mono(s1.neighbors@, s2.neighbors@, c, mbc);
        lemma_linked_mono(s1.neighbors@, s2.neighbors@, c, mca);
        lemma_linked_mono(s1.neighbors@, s2.neighbors@, a, mca);
        lemma_linked_mono(s1.neighbors@, s2.neighbors@, mab, mbc);
        lemma_linked_mono(s1.neighbors@, s2.neighbors@, mbc, mca);
        lemma_linked_mono(s1.neighbors@, s2.neighbors@, mca, mab);
    }

    /// A key set absorbs the four indices of a chunk whose base it already
    /// holds as a whole chunk.
    proof fn lemma_dom_absorbs_chunk(tris: Map<usize, [u32; 3]>, p: usize)
        requires
            4 * p + 3 <= usize::MAX,
            tris.contains_key((4 * p) as usize),
            chunk_whole(tris, (4 * p) as usize),
        ensures
            tris.dom() =~= tris.dom().union(
                set![
                    (4 * p) as usize,
                    (4 * p + 1) as usize,
                    (4 * p + 2) as usize,
                    (4 * p + 3) as usize,
                ],
            ),
    {
        broadcast use vstd::set::group_set_axioms;

        reveal(chunk_whole);
        assert(4 * (((4 * p) as usize as int) / 4) == 4 * p);
    }

    /// After inserting the four children of parent `p` (corner copies
    /// `a, b, c`, midpoints `dd, ee, ff`) into a well-formed state whose
    /// triangles were `old_tris`, the mesh `s` is well formed again and the
    /// chunk is generated in the canonical layout.
    #[verifier::rlimit(100)]
    #[verifier::spinoff_prover]
    proof fn lemma_chunk_insert_wf(
        old_tris: Map<usize, [u32; 3]>,
        s: SparseIcosphere<T>,
        pt: [u32; 3],
        p: usize,
        a: usize,
        b: usize,
        c: usize,
        dd: usize,
        ee: usize,
        ff: usize,
        old_vlen: int,
    )
        requires
            spec_triangle_count(s.binning_depth as nat) <= u32::MAX,
            4 * p + 3 < spec_triangle_count(s.binning_depth as nat),
            forall|k: usize| #[trigger]
                old_tris.contains_key(k) ==> k < spec_triangle_count(s.binning_depth as nat),
            forall|k: usize| #[trigger] old_tris.contains_key(k) ==> tri_ok(old_tris[k], old_vlen),
            forall|k: usize| #[trigger] old_tris.contains_key(k) ==> chunk_whole(old_tris, k),
            2 * old_vlen <= 3 * old_tris.dom().len(),
            old_tris.dom().finite(),
            !old_tris.contains_key((4 * p) as usize),
            s.triangles@ == old_tris.insert(
                (4 * p) as usize,
                [a as u32, dd as u32, ff as u32],
            ).insert((4 * p + 1) as usize, [b as u32, ee as u32, dd as u32]).insert(
                (4 * p + 2) as usize,
                [c as u32, ff as u32, ee as u32],
            ).insert((4 * p + 3) as usize, [dd as u32, ee as u32, ff as u32]),
            old_vlen <= s.vertices@.len(),
            s.vertices@.len() <= old_vlen + 6,
            s.vertices@.len() <= u32::MAX,
            a < s.vertices@.len() && b < s.vertices@.len() && c < s.vertices@.len(),
            a != b && b != c && c != a,
            dd < s.vertices@.len() && ee < s.vertices@.len() && ff < s.vertices@.len(),
            dd != ee && ee != ff && ff != dd,
            a != dd && a != ee && a != ff,
            b != dd && b != ee && b != ff,
            c != dd && c != ee && c != ff,
            midpoints_bounded(s.midpoints@, 0, s.vertices@.len() as int),
            midpoints_injective(s.midpoints@),
            prev_bounded(s.previous_vertices@, s.vertices@.len() as int),
            prev_injective(s.previous_vertices@),
            images_disjoint(s.previous_vertices@, s.midpoints@),
            s.previous_vertices@.contains_key(pt[0]),
            s.previous_vertices@.contains_key(pt[1]),
            s.previous_vertices@.contains_key(pt[2]),
            a == s.previous_vertices@[pt[0]],
            b == s.previous_vertices@[pt[1]],
            c == s.previous_vertices@[pt[2]],
            s.midpoints@.contains_key(edge_key64(a as int, b as int)),
            s.midpoints@.contains_key(edge_key64(b as int, c as int)),
            s.midpoints@.contains_key(edge_key64(c as int, a as int)),
            dd == s.midpoints@[edge_key64(a as int, b as int)],
            ee == s.midpoints@[edge_key64(b as int, c as int)],
            ff == s.midpoints@[edge_key64(c as int, a as int)],
            mids_linked(s.midpoints@, s.neighbors@),
            chunk_links(s, a, b, c),
        ensures
            sparse_wf_parts(s),
            chunk_generated_from(s, pt, p as int),
            s.triangles@.dom() =~= old_tris.dom().union(
                set![
                    (4 * p) as usize,
                    (4 * p + 1) as usize,
                    (4 * p + 2) as usize,
                    (4 * p + 3) as usize,
                ],
            ),
            s.triangles@.dom().len() == old_tris.dom().len() + 4,
            forall|k: usize| #[trigger]
                old_tris.contains_key(k) ==> s.triangles@.contains_key(k) && s.triangles@[k]
                    == old_tris[k],
    {
        broadcast use vstd::set::group_set_axioms;

        let base = 4 * p;
        assert(!old_tris.contains_key((base + 1) as usize) && !old_tris.contains_key(
            (base + 2) as usize,
        ) && !old_tris.contains_key((base + 3) as usize)) by {
            if old_tris.contains_key((base + 1) as usize) {
                assert(4 * (((base + 1) as int) / 4) == base);
                Self::lemma_chunk_whole_parts(old_tris, (base + 1) as usize);
            }
            if old_tris.contains_key((base + 2) as usize) {
                assert(4 * (((base + 2) as int) / 4) == base);
                Self::lemma_chunk_whole_parts(old_tris, (base + 2) as usize);
            }
            if old_tris.contains_key((base + 3) as usize) {
                assert(4 * (((base + 3) as int) / 4) == base);
                Self::lemma_chunk_whole_parts(old_tris, (base + 3) as usize);
            }
        }
        assert(s.triangles@.dom() =~= old_tris.dom().union(
            set![
                (4 * p) as usize,
                (4 * p + 1) as usize,
                (4 * p + 2) as usize,
                (4 * p + 3) as usize,
            ],
        ));
        assert(s.triangles@.dom().len() == old_tris.dom().len() + 4);
        assert forall|k: usize| #[trigger] s.triangles@.contains_key(k) implies chunk_whole(
            s.triangles@,
            k,
        ) by {
            if old_tris.contains_key(k) {
                assert(chunk_whole(old_tris, k));
                Self::lemma_chunk_whole_mono(old_tris, s.triangles@, k);
            } else {
                assert(base <= k as int && k as int <= base + 3);
                assert(4 * ((k as int) / 4) == base);
                Self::lemma_chunk_whole_intro(s.triangles@, k);
            }
        }
        assert forall|k: usize| #[trigger] s.triangles@.contains_key(k) implies tri_ok(
            s.triangles@[k],
            s.vertices@.len() as int,
        ) by {
            if old_tris.contains_key(k) {
                assert(tri_ok(old_tris[k], old_vlen));
            }
        }
        assert(sparse_wf_parts(s)) by {
            reveal(sparse_wf_parts);
        }
        assert(chunk_generated_from(s, pt, p as int)) by {
            reveal(chunk_generated_from);
            reveal(children_ok_map);
        }
    }

    /// Generates the chunk of `previous`'s triangle `parent_index`, which
    /// must not be present yet: copies the three corners, creates or reuses
    /// the three edge midpoints, and inserts the four children.
    #[verifier::rlimit(100)]
    #[verifier::spinoff_prover]
    fn generate_chunk(&mut self, previous: &Self, parent_index: usize)
        requires
            old(self).wf(),
            previous.wf(),
            previous.binning_depth + 1 == old(self).binning_depth,
            previous.triangles@.contains_key(parent_index),
            !old(self).triangles@.contains_key((4 * parent_index) as usize),
        ensures
            final(self).wf(),
            final(self).binning_depth == old(self).binning_depth,
            chunk_generated_from(
                *final(self),
                previous.triangles@[parent_index],
                parent_index as int,
            ),
            final(self).triangles@.dom() =~= old(self).triangles@.dom().union(
                set![
                    (4 * parent_index) as usize,
                    (4 * parent_index + 1) as usize,
                    (4 * parent_index + 2) as usize,
                    (4 * parent_index + 3) as usize,
                ],
            ),
            forall|k: usize| #[trigger]
                old(self).triangles@.contains_key(k) ==> final(self).triangles@.contains_key(k)
                    && final(self).triangles@[k] == old(self).triangles@[k],
            forall|k: u32| #[trigger]
                old(self).previous_vertices@.contains_key(k)
                    ==> final(self).previous_vertices@.contains_key(k)
                        && final(self).previous_vertices@[k] == old(self).previous_vertices@[k],
            forall|key: u64| #[trigger]
                old(self).midpoints@.contains_key(key) ==> final(self).midpoints@.contains_key(key)
                    && final(self).midpoints@[key] == old(self).midpoints@[key],
            old(self).vertices@.is_prefix_of(final(self).vertices@),
            links_monotone(old(self).neighbors@, final(self).neighbors@),
            corners_cloned(*old(self), *final(self), *previous, parent_index),
    {
        let ghost d = self.binning_depth as nat;
        let ghost dp = previous.binning_depth as nat;
        proof {
            lemma_depth_fits_bound(d);
            assert(spec_triangle_count(d) == 4 * spec_triangle_count(dp));
            assert(parent_index < spec_triangle_count(dp)) by {
                reveal(sparse_wf_parts);
            }
            assert(midpoints_bounded(self.midpoints@, 0, self.vertices@.len() as int)
                && midpoints_injective(self.midpoints@)
                && prev_bounded(self.previous_vertices@, self.vertices@.len() as int)
                && prev_injective(self.previous_vertices@)
                && images_disjoint(self.previous_vertices@, self.midpoints@)
                && mids_linked(self.midpoints@, self.neighbors@)
                && 2 * self.vertices@.len() <= 3 * self.triangles@.dom().len()
                && (forall|k: usize| #[trigger]
                    self.triangles@.contains_key(k) ==> k < spec_triangle_count(d))
                && tri_ok(previous.triangles@[parent_index], previous.vertices@.len() as int))
                by {
                reveal(sparse_wf_parts);
            }
            // The vertex list stays far below `u32::MAX` throughout: it holds
            // at most three vertices for every two triangles of the depth.
            assert(3 * self.triangles@.dom().len() <= 3 * spec_triangle_count(d)) by {
                broadcast use vstd::set::group_set_axioms;

                lemma_usize_range_len(spec_triangle_count(d) as int);
                assert(self.triangles@.dom().subset_of(
                    usize_range(spec_triangle_count(d) as int),
                )) by {
                    assert forall|k: usize|
                        self.triangles@.dom().contains(k) implies usize_range(
                        spec_triangle_count(d) as int,
                    ).contains(k) by {
                        assert(self.triangles@.contains_key(k));
                    }
                }
                vstd::set_lib::lemma_len_subset(
                    self.triangles@.dom(),
                    usize_range(spec_triangle_count(d) as int),
                );
            }
            crate::lemma_pow4_positive(d);
            assert(self.vertices@.len() + 8 <= u32::MAX);
        }
        let base = parent_index * 4;
        let ghost pt = previous.triangles@[parent_index];

        let (a, b, c) = self.copy_chunk_corners(previous, parent_index);
        let (dd, ee, ff) = self.make_chunk_midpoints(a, b, c);

        // Insert the four children at the chunk's fixed indices.
        let au = a as u32;
        let bu = b as u32;
        let cu = c as u32;
        let du = dd as u32;
        let eu = ee as u32;
        let fu = ff as u32;
        let ghost pre_insert = self.triangles@;
        self.triangles.insert(base, [au, du, fu]);
        self.triangles.insert(base + 1, [bu, eu, du]);
        self.triangles.insert(base + 2, [cu, fu, eu]);
        self.triangles.insert(base + 3, [du, eu, fu]);

        proof {
            assert(a != dd && a != ee && a != ff && b != dd && b != ee && b != ff && c != dd && c
                != ee && c != ff);
            assert(chunk_links(*self, a, b, c));
            assert(spec_triangle_count(d) <= u32::MAX);
            assert((forall|k: usize| #[trigger]
                pre_insert.contains_key(k) ==> tri_ok(pre_insert[k], old(self).vertices@.len() as int))
                && (forall|k: usize| #[trigger]
                    pre_insert.contains_key(k) ==> chunk_whole(pre_insert, k))) by {
                reveal(sparse_wf_parts);
            }
            Self::lemma_chunk_insert_wf(
                pre_insert,
                *self,
                pt,
                parent_index,
                a,
                b,
                c,
                dd,
                ee,
                ff,
                old(self).vertices@.len() as int,
            );
            assert(old(self).vertices@.is_prefix_of(self.vertices@)) by {
                assert(old(self).vertices@ =~= self.vertices@.subrange(
                    0,
                    old(self).vertices@.len() as int,
                ));
            }
        }
    }
}

impl<T: IcosphereVertex> Icosphere<T> for SparseIcosphere<T> {
    /// A sparse mesh is well formed when every materialised triangle index is
    /// in range for the depth and belongs to a fully materialised chunk,
    /// every triangle is three distinct in-bounds corners, the vertex list
    /// has no more than three vertices for every two triangles, and the two
    /// caches hold distinct in-bounds vertex indices of the two disjoint
    /// kinds (copied corners and midpoints).
    open spec fn wf(&self) -> bool {
        &&& depth_fits(self.binning_depth as nat)
        &&& sparse_wf_parts(*self)
    }

    open spec fn spec_binning_depth(&self) -> nat {
        self.binning_depth as nat
    }

    open spec fn spec_triangles(&self) -> Map<usize, [u32; 3]> {
        self.triangles@
    }

    open spec fn spec_vertices(&self) -> Seq<T> {
        self.vertices@
    }

    proof fn lemma_wf_triangles(&self) {
        reveal(sparse_wf_parts);
    }

    /// The sparse mesh the level manager stores for a depth: empty, to be
    /// generated chunk by chunk.
    fn create(binning_depth: usize) -> (ico: Self) {
        Self::empty(binning_depth)
    }

    fn binning_depth(&self) -> (depth: usize) {
        self.binning_depth
    }

    fn triangle(&self, triangle_index: usize) -> (t: [u32; 3]) {
        *self.triangles.get(&triangle_index).unwrap()
    }

    fn vertices(&self) -> (v: &[T]) {
        self.vertices.as_slice()
    }

    fn total_triangle_count(&self) -> (n: usize) {
        proof {
            assert(spec_triangle_count(self.binning_depth as nat) <= u32::MAX);
        }
        crate::triangle_count(self.binning_depth)
    }

    fn total_vertex_count(&self) -> (n: usize) {
        proof {
            assert(spec_vertex_count(self.binning_depth as nat) <= u32::MAX);
        }
        crate::vertex_count(self.binning_depth)
    }

    fn allocated_triangle_count(&self) -> (n: usize) {
        self.triangles.len()
    }

    fn allocated_vertex_count(&self) -> (n: usize) {
        self.vertices.len()
    }

    /// Subdivides `previous`'s triangle `parent_index` into four children of
    /// this mesh, copying the chunk's corners through the parent-to-current
    /// vertex map (a corner shared with a sibling chunk is copied at most
    /// once) and deduplicating the three edge midpoints through this mesh's
    /// own midpoint cache.  A no-op when the mesh is already fully generated
    /// or the chunk's first child is already present.
    #[verifier::rlimit(100)]
    #[verifier::spinoff_prover]
    fn subdivide_chunk(&mut self, previous: &Self, parent_index: usize) -> (did: bool)
        ensures
            did ==> chunk_generated_from(
                *final(self),
                previous.triangles@[parent_index],
                parent_index as int,
            ),
            forall|k: u32| #[trigger]
                old(self).previous_vertices@.contains_key(k)
                    ==> final(self).previous_vertices@.contains_key(k)
                        && final(self).previous_vertices@[k] == old(self).previous_vertices@[k],
            forall|key: u64| #[trigger]
                old(self).midpoints@.contains_key(key) ==> final(self).midpoints@.contains_key(key)
                    && final(self).midpoints@[key] == old(self).midpoints@[key],
            old(self).vertices@.is_prefix_of(final(self).vertices@),
            links_monotone(old(self).neighbors@, final(self).neighbors@),
            did ==> corners_cloned(*old(self), *final(self), *previous, parent_index),
    {
        let ghost d = self.binning_depth as nat;
        let ghost dp = previous.binning_depth as nat;
        proof {
            lemma_depth_fits_bound(d);
            assert(spec_triangle_count(d) == 4 * spec_triangle_count(dp));
            assert(parent_index < spec_triangle_count(dp)) by {
                reveal(sparse_wf_parts);
            }
        }

        // All triangles generated: nothing to do.
        let total = self.total_triangle_count();
        if self.triangles.len() == total {
            proof {
                assert(forall|k: usize| #[trigger]
                    self.triangles@.contains_key(k) ==> k < spec_triangle_count(d)) by {
                    reveal(sparse_wf_parts);
                }
                lemma_full_dom(self.triangles@.dom(), spec_triangle_count(d) as int);
                assert(self.triangles@.contains_key((4 * parent_index) as usize));
                assert(chunk_whole(self.triangles@, (4 * parent_index) as usize)) by {
                    reveal(sparse_wf_parts);
                }
                Self::lemma_dom_absorbs_chunk(self.triangles@, parent_index);
            }
            return false;
        }

        // If the first child is generated, the whole chunk is taken to be.
        let base = parent_index * 4;
        if self.triangles.contains_key(&base) {
            proof {
                assert(chunk_whole(self.triangles@, base as usize)) by {
                    reveal(sparse_wf_parts);
                }
                Self::lemma_dom_absorbs_chunk(self.triangles@, parent_index);
            }
            return false;
        }

        self.generate_chunk(previous, parent_index);
        true
    }

    /// Drives one chunk subdivision per currently present triangle index of
    /// this mesh: the result is exactly as complete as this mesh was, no
    /// more.  A partially generated source yields a partially generated
    /// result.
    #[verifier::rlimit(60)]
    #[verifier::spinoff_prover]
    fn subdivide(&self) -> (r: Self)
        ensures
            forall|k: usize| #[trigger]
                self.triangles@.contains_key(k) ==> chunk_generated_from(
                    r,
                    self.triangles@[k],
                    k as int,
                ),
    {
        proof {
            lemma_depth_fits_bound(self.binning_depth as nat + 1);
        }
        let mut ico = Self::empty(self.binning_depth + 1);
        let total = self.total_triangle_count();
        let mut i: usize = 0;
        while i < total
            invariant
                i <= total,
                ico.wf(),
                ico.binning_depth == self.binning_depth + 1,
                forall|k: usize| #![auto]
                    ico.triangles@.contains_key(k) <==> ((k as int) < 4 * i
                        && self.triangles@.contains_key(k / 4)),
                forall|k: usize|
                    (#[trigger] self.triangles@.contains_key(k)) && (k as int) < i
                        ==> chunk_generated_from(ico, self.triangles@[k], k as int),
            decreases total - i,
        {
            if self.triangles.contains_key(&i) {
                let ghost before = ico.triangles@;
                let ghost before_ico = ico;
                ico.subdivide_chunk(self, i);
                proof {
                    assert forall|k: usize|
                        (#[trigger] self.triangles@.contains_key(k)) && (k as int) < i
                            + 1 implies chunk_generated_from(ico, self.triangles@[k], k as int) by {
                        if (k as int) < i {
                            Self::lemma_chunk_generated_mono(
                                before_ico,
                                ico,
                                self.triangles@[k],
                                k as int,
                            );
                        }
                    }
                }
                proof {
                    assert(forall|k: usize| #![auto]
                        ico.triangles@.contains_key(k) <==> (before.contains_key(k) || (4 * i
                            <= k as int && (k as int) < 4 * i + 4)));
                    assert forall|k: usize| #![auto] ico.triangles@.contains_key(k) implies ((
                    k as int) < 4 * (i + 1) && self.triangles@.contains_key(k / 4)) by {
                        if 4 * i <= k as int && (k as int) < 4 * i + 4 {
                            assert((k / 4) as int == (k as int) / 4);
                            assert((k as int) / 4 == i);
                        }
                    }
                }
            } else {
                proof {
                    assert forall|k: usize| #![auto] ico.triangles@.contains_key(k) implies ((
                    k as int) < 4 * (i + 1) && self.triangles@.contains_key(k / 4)) by {}
                    assert forall|k: usize| #![auto]
                        ((k as int) < 4 * (i + 1) && self.triangles@.contains_key(k / 4)) implies ico.triangles@.contains_key(
                        k,
                    ) by {
                        if (k as int) >= 4 * i {
                            assert((k as int) / 4 == i);
                            assert(!self.triangles@.contains_key(k / 4));
                        }
                    }
                }
            }
            i = i + 1;
        }
        proof {
            assert forall|k: usize| #![auto]
                ico.triangles@.contains_key(k) <==> self.triangles@.contains_key(k / 4) by {
                if self.triangles@.contains_key(k / 4) {
                    assert(((k / 4) as int) < spec_triangle_count(self.binning_depth as nat)) by {
                        reveal(sparse_wf_parts);
                    }
                    assert((k as int) < 4 * total);
                }
            }
            assert forall|k: usize| #[trigger]
                self.triangles@.contains_key(k) implies chunk_generated_from(
                ico,
                self.triangles@[k],
                k as int,
            ) by {
                assert((k as int) < total) by {
                    reveal(sparse_wf_parts);
                }
            }
        }
        ico
    }
}

} // verus!
