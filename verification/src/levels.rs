//! A collection of icosphere subdivisions for progressive rendering.

use std::marker::PhantomData;
use vstd::prelude::*;

use crate::depth_fits;
use crate::lemma_depth_fits_bound;
use crate::lemma_depth_fits_monotone;
use crate::lemma_pow4_adds;
use crate::lemma_pow4_positive;
use crate::pow4;
use crate::spec_triangle_count;
use crate::Icosphere;
use crate::IcosphereVertex;

verus! {

/// A collection of icosphere subdivisions, which can be used for rendering,
/// similar to LODs.  We use the word "levels" because LOD usually makes a
/// mesh less detailed as it increases, while this tessellates the mesh into
/// more detailed shapes as the binning depth increases.
#[derive(Debug)]
pub struct IcosphereLevels<T, S> where T: IcosphereVertex, S: Icosphere<T> {
    /// The actual icospheres, one per integer binning depth from
    /// `min_binning_depth` to `max_binning_depth`: to subdivide, depths
    /// cannot be skipped even when `binning_depth_step != 1`.
    pub levels: Vec<S>,

    /// The binning depth at the 0th level.
    ///
    /// At least 1: the base icosahedron is excluded, because the arrangement
    /// of its triangles and vertices is not guaranteed in the same way as it
    /// is for its subdivisions.
    pub min_binning_depth: usize,

    /// The binning depth at the highest level.
    pub max_binning_depth: usize,

    /// The increase in binning depth for every increase in level.
    pub binning_depth_step: usize,

    /// Marks the vertex payload type the meshes carry.
    pub payload: PhantomData<T>,
}

impl<T, S> IcosphereLevels<T, S> where T: IcosphereVertex, S: Icosphere<T> {
    /// The manager owns one well-formed mesh per integer depth from
    /// `min_binning_depth` (at least 1) to `max_binning_depth`, the step
    /// divides the depth span, and every count of the deepest mesh is
    /// machine-representable.
    pub open spec fn wf(&self) -> bool {
        &&& 1 <= self.min_binning_depth
        &&& 1 <= self.binning_depth_step
        &&& self.min_binning_depth <= self.max_binning_depth
        &&& (self.max_binning_depth - self.min_binning_depth) % (
        self.binning_depth_step as int) == 0
        &&& self.levels@.len() == self.max_binning_depth - self.min_binning_depth + 1
        &&& depth_fits(self.max_binning_depth as nat)
        &&& forall|i: int|
            0 <= i < self.levels@.len() ==> (#[trigger] self.levels@[i]).wf()
                && self.levels@[i].spec_binning_depth() == self.min_binning_depth + i
    }

    /// The index of `level`'s mesh in the internal depth-indexed sequence.
    pub open spec fn spec_level_index(&self, level: int) -> int {
        level * self.binning_depth_step
    }

    /// Constructs all necessary icospheres given the minimum depth, the
    /// level count, and the depth step.  The icospheres will be potentially
    /// empty, i.e. not generated yet, for the sparse representation.
    pub fn new(min_binning_depth: usize, level_count: usize, binning_depth_step: usize) -> (r:
        Self)
        requires
            1 <= min_binning_depth,
            1 <= level_count,
            1 <= binning_depth_step,
            depth_fits((min_binning_depth + (level_count - 1) * binning_depth_step) as nat),
        ensures
            r.wf(),
            r.min_binning_depth == min_binning_depth,
            r.binning_depth_step == binning_depth_step,
            r.max_binning_depth == min_binning_depth + (level_count - 1) * binning_depth_step,
    {
        proof {
            lemma_depth_fits_bound(
                (min_binning_depth + (level_count - 1) * binning_depth_step) as nat,
            );
            vstd::arithmetic::div_mod::lemma_mod_multiples_basic(
                level_count - 1,
                binning_depth_step as int,
            );
        }
        let max_binning_depth = min_binning_depth + (level_count - 1) * binning_depth_step;
        let mut levels: Vec<S> = Vec::new();
        let mut binning_depth = min_binning_depth;
        while binning_depth <= max_binning_depth
            invariant
                min_binning_depth <= binning_depth <= max_binning_depth + 1,
                levels@.len() == binning_depth - min_binning_depth,
                forall|i: int|
                    0 <= i < levels@.len() ==> (#[trigger] levels@[i]).wf()
                        && levels@[i].spec_binning_depth() == min_binning_depth + i,
            decreases max_binning_depth + 1 - binning_depth,
        {
            proof {
                lemma_depth_fits_monotone(binning_depth as nat, max_binning_depth as nat);
            }
            levels.push(S::create(binning_depth));
            binning_depth = binning_depth + 1;
        }
        IcosphereLevels {
            levels,
            min_binning_depth,
            max_binning_depth,
            binning_depth_step,
            payload: PhantomData,
        }
    }

    /// Ensures the specified chunk is generated at `level`'s depth, by
    /// subdividing the parent triangle of the mesh one depth below.  Returns
    /// `true` if it was generated now and `false` if it had already been
    /// generated, in which case nothing changes.
    pub fn update_chunk(&mut self, level: usize, chunk_index: usize) -> (did: bool)
        requires
            old(self).wf(),
            1 <= level,
            level * old(self).binning_depth_step < old(self).levels@.len(),
            old(self).levels@[level * old(self).binning_depth_step - 1].spec_triangles(
            ).contains_key(chunk_index),
        ensures
            final(self).wf(),
            final(self).min_binning_depth == old(self).min_binning_depth,
            final(self).max_binning_depth == old(self).max_binning_depth,
            final(self).binning_depth_step == old(self).binning_depth_step,
            final(self).levels@.len() == old(self).levels@.len(),
            forall|i: int|
                0 <= i < old(self).levels@.len() && i != old(self).spec_level_index(level as int)
                    ==> final(self).levels@[i] == old(self).levels@[i],
            did == !old(self).levels@[old(self).spec_level_index(
                level as int,
            )].spec_triangles().contains_key((4 * chunk_index) as usize),
            !did ==> final(self).levels@[old(self).spec_level_index(level as int)] == old(
                self,
            ).levels@[old(self).spec_level_index(level as int)],
            forall|k: usize|
                4 * chunk_index <= k < 4 * chunk_index + 4 ==> final(self).levels@[old(
                    self,
                ).spec_level_index(level as int)].spec_triangles().contains_key(k),
    {
        proof {
            assert(level <= level * self.binning_depth_step) by (nonlinear_arith)
                requires
                    1 <= level,
                    1 <= self.binning_depth_step,
            ;
            lemma_depth_fits_monotone(
                (self.min_binning_depth + level * self.binning_depth_step) as nat,
                self.max_binning_depth as nat,
            );
        }
        let index = level * self.binning_depth_step;
        let ghost before = self.levels@;
        let mut current = self.levels.remove(index);
        let did = current.subdivide_chunk(&self.levels[index - 1], chunk_index);
        self.levels.insert(index, current);
        proof {
            assert(self.levels@ =~= before.update(index as int, current));
        }
        did
    }

    /// Get the icosphere at the specified level.
    pub fn get(&self, level: usize) -> (ico: &S)
        requires
            self.wf(),
            level * self.binning_depth_step < self.levels@.len(),
        ensures
            ico == self.levels@[self.spec_level_index(level as int)],
    {
        &self.levels[level * self.binning_depth_step]
    }

    /// Same as [`Self::get`] but mutable.
    pub fn get_mut(&mut self, level: usize) -> (ico: &mut S)
        requires
            old(self).wf(),
            level * old(self).binning_depth_step < old(self).levels@.len(),
        ensures
            *ico == old(self).levels@[old(self).spec_level_index(level as int)],
            final(self).levels@ == old(self).levels@.update(
                old(self).spec_level_index(level as int),
                *final(ico),
            ),
            final(self).min_binning_depth == old(self).min_binning_depth,
            final(self).max_binning_depth == old(self).max_binning_depth,
            final(self).binning_depth_step == old(self).binning_depth_step,
    {
        let index = level * self.binning_depth_step;
        &mut self.levels[index]
    }

    /// The binning depth at a specific detail level.
    pub fn binning_depth_at_level(&self, level: usize) -> (depth: usize)
        requires
            self.wf(),
            level * self.binning_depth_step <= self.max_binning_depth - self.min_binning_depth,
        ensures
            depth == self.min_binning_depth + level * self.binning_depth_step,
    {
        self.min_binning_depth + level * self.binning_depth_step
    }

    /// The level corresponding to the binning depth, if any: the exact
    /// inverse of [`Self::binning_depth_at_level`] for depths in range and
    /// reachable by the configured step, and `None` for every other depth.
    pub fn level_of_binning_depth(&self, binning_depth: usize) -> (r: Option<usize>)
        requires
            self.wf(),
        ensures
            r.is_some() <==> (self.min_binning_depth <= binning_depth <= self.max_binning_depth
                && (binning_depth - self.min_binning_depth) % (self.binning_depth_step as int)
                == 0),
            r.is_some() ==> r == Some(
                (((binning_depth - self.min_binning_depth) as usize) / (
                self.binning_depth_step as usize)) as usize,
            ),
    {
        if binning_depth < self.min_binning_depth || binning_depth > self.max_binning_depth || (
        binning_depth - self.min_binning_depth) % self.binning_depth_step != 0 {
            return None;
        }
        Some((binning_depth - self.min_binning_depth) / self.binning_depth_step)
    }

    /// `binning_depth_at_level` and `level_of_binning_depth` are exact
    /// inverses: querying the depth of a valid level finds that level again.
    pub proof fn lemma_level_of_binning_depth_inverse(&self, level: usize)
        requires
            self.wf(),
            level * self.binning_depth_step <= self.max_binning_depth - self.min_binning_depth,
        ensures
            self.min_binning_depth <= self.min_binning_depth + level * self.binning_depth_step
                <= self.max_binning_depth,
            (level * self.binning_depth_step) % (self.binning_depth_step as int) == 0,
            (level * self.binning_depth_step) / (self.binning_depth_step as int) == level,
    {
        vstd::arithmetic::div_mod::lemma_mod_multiples_basic(
            level as int,
            self.binning_depth_step as int,
        );
        vstd::arithmetic::div_mod::lemma_div_by_multiple(
            level as int,
            self.binning_depth_step as int,
        );
    }

    /// The total number of levels.
    pub fn level_count(&self) -> (n: usize)
        requires
            self.wf(),
        ensures
            n == (self.max_binning_depth - self.min_binning_depth) / (
            self.binning_depth_step as int) + 1,
    {
        (self.max_binning_depth - self.min_binning_depth) / self.binning_depth_step + 1
    }

    /// The number of triangles in each "chunk": the triangles one parent
    /// triangle becomes after `binning_depth_step` full subdivisions.
    pub fn chunk_size(&self) -> (n: usize)
        requires
            self.wf(),
            pow4(self.binning_depth_step as nat) <= usize::MAX,
        ensures
            n == pow4(self.binning_depth_step as nat),
    {
        crate::pow4_exec(self.binning_depth_step)
    }

    /// The number of chunks in a certain level: the previous level's full
    /// triangle count.  The 0th level is never chunked (its mesh is cheap
    /// enough to draw whole), so `level` must be at least 1.
    pub fn chunk_count(&self, level: usize) -> (n: usize)
        requires
            self.wf(),
            1 <= level,
            level * self.binning_depth_step <= self.max_binning_depth - self.min_binning_depth,
        ensures
            n == spec_triangle_count(
                (self.min_binning_depth + (level - 1) * self.binning_depth_step) as nat,
            ),
    {
        proof {
            assert((level - 1) * self.binning_depth_step == level * self.binning_depth_step
                - self.binning_depth_step) by (nonlinear_arith);
            lemma_depth_fits_monotone(
                (self.min_binning_depth + (level - 1) * self.binning_depth_step) as nat,
                self.max_binning_depth as nat,
            );
        }
        let binning_depth = self.binning_depth_at_level(level - 1);
        crate::triangle_count(binning_depth)
    }

    /// For `chunk_index` at some level, the range of subchunk indices at the
    /// next level, as the pair `(first, one past last)`: with a step of 1,
    /// `chunk_index` maps to `(chunk_index * 4, chunk_index * 4 + 4)`.
    pub fn subchunk_indices(&self, chunk_index: usize) -> (r: (usize, usize))
        requires
            self.wf(),
            (chunk_index + 1) * pow4(self.binning_depth_step as nat) <= usize::MAX,
        ensures
            r.0 == chunk_index * pow4(self.binning_depth_step as nat),
            r.1 == r.0 + pow4(self.binning_depth_step as nat),
    {
        proof {
            assert((chunk_index + 1) * pow4(self.binning_depth_step as nat) == chunk_index * pow4(
                self.binning_depth_step as nat,
            ) + pow4(self.binning_depth_step as nat)) by (nonlinear_arith);
            lemma_pow4_positive(self.binning_depth_step as nat);
        }
        let size = self.chunk_size();
        let start = chunk_index * size;
        let end = start + size;
        (start, end)
    }

    /// The range of all chunk indices for the given level, as the pair
    /// `(0, chunk count)`.
    pub fn chunk_indices(&self, level: usize) -> (r: (usize, usize))
        requires
            self.wf(),
            1 <= level,
            level * self.binning_depth_step <= self.max_binning_depth - self.min_binning_depth,
        ensures
            r.0 == 0,
            r.1 == spec_triangle_count(
                (self.min_binning_depth + (level - 1) * self.binning_depth_step) as nat,
            ),
    {
        (0, self.chunk_count(level))
    }

    /// Chunk coverage: the subchunk ranges of the chunks of a level exactly
    /// partition the triangle indices of that level's depth (equivalently,
    /// the chunk indices of the next level): every triangle index `j` lies
    /// in the subchunk range of exactly one chunk, namely `j / chunk_size`.
    pub proof fn lemma_subchunk_partition(&self, level: usize, j: int)
        requires
            self.wf(),
            1 <= level,
            level * self.binning_depth_step <= self.max_binning_depth - self.min_binning_depth,
            0 <= j < spec_triangle_count(
                (self.min_binning_depth + level * self.binning_depth_step) as nat,
            ),
        ensures
            0 <= j / (pow4(self.binning_depth_step as nat) as int) < spec_triangle_count(
                (self.min_binning_depth + (level - 1) * self.binning_depth_step) as nat,
            ),
            forall|k: int|
                0 <= k < spec_triangle_count(
                    (self.min_binning_depth + (level - 1) * self.binning_depth_step) as nat,
                ) ==> ((#[trigger] (k * pow4(self.binning_depth_step as nat)) <= j < (k + 1)
                    * pow4(self.binning_depth_step as nat)) <==> k == j / (pow4(
                    self.binning_depth_step as nat,
                ) as int)),
    {
        let step = self.binning_depth_step as nat;
        let cs = pow4(step) as int;
        let prev_depth = (self.min_binning_depth + (level - 1) * step) as nat;
        lemma_pow4_positive(step);
        assert((level - 1) * step == level * (step as int) - step) by (nonlinear_arith);
        lemma_pow4_adds(prev_depth, step);
        assert(spec_triangle_count(prev_depth + step) == spec_triangle_count(prev_depth) * pow4(
            step,
        )) by (nonlinear_arith)
            requires
                pow4(prev_depth + step) == pow4(prev_depth) * pow4(step),
        ;
        let count = spec_triangle_count(prev_depth) as int;
        vstd::arithmetic::div_mod::lemma_fundamental_div_mod(j, cs);
        let q = j / cs;
        assert(0 <= q < count) by (nonlinear_arith)
            requires
                j == cs * q + j % cs,
                0 <= j % cs < cs,
                0 <= j < count * cs,
                cs >= 1,
        ;
        assert forall|k: int|
            0 <= k < count implies ((#[trigger] (k * pow4(step)) <= j < (k + 1) * pow4(step))
            <==> k == q) by {
            assert((k * cs <= j < (k + 1) * cs) <==> k == q) by (nonlinear_arith)
                requires
                    j == cs * q + j % cs,
                    0 <= j % cs < cs,
                    cs >= 1,
            ;
        }
    }

    /// Flattens the chunk's triangle corner indices into a contiguous
    /// array, laid out as triangle triples: for use as an index buffer over
    /// this chunk.  Every triangle of the chunk must already have been
    /// generated, e.g. through [`Self::update_chunk`].
    pub fn flattened_chunk_indices(&self, level: usize, chunk_index: usize) -> (indices: Vec<u32>)
        requires
            self.wf(),
            level * self.binning_depth_step < self.levels@.len(),
            (chunk_index + 1) * pow4(self.binning_depth_step as nat) <= spec_triangle_count(
                (self.min_binning_depth + level * self.binning_depth_step) as nat,
            ),
            forall|t: usize|
                chunk_index * pow4(self.binning_depth_step as nat) <= t < (chunk_index + 1) * pow4(
                    self.binning_depth_step as nat,
                ) ==> self.levels@[self.spec_level_index(level as int)].spec_triangles(
                ).contains_key(t),
        ensures
            indices@.len() == 3 * pow4(self.binning_depth_step as nat),
            forall|o: int|
                #![trigger indices@[3 * o]]
                0 <= o < pow4(self.binning_depth_step as nat) ==> {
                    let t = self.levels@[self.spec_level_index(level as int)].spec_triangles()[((
                    chunk_index * pow4(self.binning_depth_step as nat)) + o) as usize];
                    &&& indices@[3 * o] == t[0]
                    &&& indices@[3 * o + 1] == t[1]
                    &&& indices@[3 * o + 2] == t[2]
                },
    {
        proof {
            lemma_depth_fits_bound(self.max_binning_depth as nat);
            lemma_depth_fits_monotone(
                (self.min_binning_depth + level * self.binning_depth_step) as nat,
                self.max_binning_depth as nat,
            );
            assert((chunk_index + 1) * pow4(self.binning_depth_step as nat) == chunk_index * pow4(
                self.binning_depth_step as nat,
            ) + pow4(self.binning_depth_step as nat)) by (nonlinear_arith);
            lemma_pow4_positive(self.binning_depth_step as nat);
        }
        let size = self.chunk_size();
        let start = chunk_index * size;
        let ico = &self.levels[level * self.binning_depth_step];
        let mut indices: Vec<u32> = Vec::new();
        let mut o: usize = 0;
        while o < size
            invariant
                o <= size,
                indices@.len() == 3 * o,
                forall|i: int|
                    #![trigger indices@[3 * i]]
                    0 <= i < o ==> {
                        let t = ico.spec_triangles()[(start + i) as usize];
                        &&& indices@[3 * i] == t[0]
                        &&& indices@[3 * i + 1] == t[1]
                        &&& indices@[3 * i + 2] == t[2]
                    },
            decreases size - o,
        {
            proof {
                assert(start == chunk_index * pow4(self.binning_depth_step as nat));
                assert(chunk_index * pow4(self.binning_depth_step as nat) <= ((start + o) as int)
                    && ((start + o) as int) < (chunk_index + 1) * pow4(
                    self.binning_depth_step as nat,
                ));
                assert(self.levels@[self.spec_level_index(level as int)].spec_triangles(
                ).contains_key((start + o) as usize));
            }
            let t = ico.triangle(start + o);
            let ghost before = indices@;
            indices.push(t[0]);
            indices.push(t[1]);
            indices.push(t[2]);
            proof {
                assert(indices@.len() == 3 * (o + 1));
                assert(indices@[3 * (o as int)] == t[0]);
                assert(indices@[3 * (o as int) + 1] == t[1]);
                assert(indices@[3 * (o as int) + 2] == t[2]);
                assert forall|i: int|
                    #![trigger indices@[3 * i]]
                    0 <= i < o + 1 implies {
                    let t2 = ico.spec_triangles()[(start + i) as usize];
                    &&& indices@[3 * i] == t2[0]
                    &&& indices@[3 * i + 1] == t2[1]
                    &&& indices@[3 * i + 2] == t2[2]
                } by {
                    if i < o {
                        assert(indices@[3 * i] == before[3 * i]);
                        assert(indices@[3 * i + 1] == before[3 * i + 1]);
                        assert(indices@[3 * i + 2] == before[3 * i + 2]);
                    }
                }
            }
            o = o + 1;
        }
        indices
    }
}

} // verus!
