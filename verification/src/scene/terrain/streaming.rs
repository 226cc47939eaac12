//! Moving the window with the viewpoint, and loading what it newly covers.
use vstd::prelude::*;
use rayon::iter::{IntoParallelRefIterator, ParallelIterator};
use crate::render::mesh::{
    all_quads, cell_x, cell_y, cell_z, chunk_quads, face_flags, quad_indices, quad_verts, Mesh,
    MeshError, MAX_VERTICES,
};
use crate::render::vertex::BlockVertex;
use crate::scene::terrain::block::Quad;
use crate::scene::terrain::chunk::{
    block_at, generate_chunk, grid_generated, grid_wf, Blocks, HeightMap, CHUNK_AREA,
    TOTAL_CHUNK_SIZE,
};
use crate::scene::terrain::{chunk_coord, Terrain, CHUNKS_ARRAY_SIZE, CHUNKS_VIEW_SIZE};

verus! {

/// Whether the chunk at `(cx, cz)` lies in the window whose corner is at
/// `(nx, nz)`.
pub open spec fn in_window_at(nx: int, nz: int, cx: int, cz: int) -> bool {
    0 <= cx - nx < CHUNKS_VIEW_SIZE && 0 <= cz - nz < CHUNKS_VIEW_SIZE
}

impl Terrain {
    /// What place `j` of the window holds once its corner has moved to
    /// `(nx, nz)`: the slot of the chunk that lies there, if that chunk was
    /// loaded before the move.
    pub open spec fn kept_at(self, nx: int, nz: int, j: int) -> Option<usize> {
        self.spec_chunk_at_offset(
            nx + j % (CHUNKS_VIEW_SIZE as int),
            nz + j / (CHUNKS_VIEW_SIZE as int),
        )
    }

    /// The slots that a move of the corner of the window to `(nx, nz)` sets
    /// free among the first `n` places: those whose chunk the window no
    /// longer covers, in the order of their places.
    pub open spec fn released(self, nx: int, nz: int, n: int) -> Seq<usize>
        decreases n,
    {
        if n <= 0 {
            Seq::empty()
        } else {
            let rest = self.released(nx, nz, n - 1);
            let at = self.spec_chunk_offset(n - 1);
            match self.chunk_indices@[n - 1] {
                Some(s) => if in_window_at(nx, nz, at[0] as int, at[2] as int) {
                    rest
                } else {
                    rest.push(s)
                },
                None => rest,
            }
        }
    }

    /// A slot is among those that a move sets free if and only if it holds
    /// a place whose chunk the window no longer covers.
    pub proof fn lemma_released(self, nx: int, nz: int, n: int)
        requires
            self.wf(),
            0 <= n <= CHUNKS_ARRAY_SIZE,
        ensures
            self.released(nx, nz, n).len() <= n,
            forall|k: int|
                0 <= k < self.released(nx, nz, n).len() ==> {
                    let s = #[trigger] self.released(nx, nz, n)[k];
                    &&& s < CHUNKS_ARRAY_SIZE
                    &&& self.is_mapped(s as int)
                    &&& self.place_of(s as int) < n
                    &&& !in_window_at(
                        nx,
                        nz,
                        self.spec_chunk_offset(self.place_of(s as int))[0] as int,
                        self.spec_chunk_offset(self.place_of(s as int))[2] as int,
                    )
                },
            forall|i: int|
                0 <= i < n && self.chunk_indices@[i] is Some && !in_window_at(
                    nx,
                    nz,
                    self.spec_chunk_offset(i)[0] as int,
                    self.spec_chunk_offset(i)[2] as int,
                ) ==> exists|k: int|
                    0 <= k < self.released(nx, nz, n).len() && #[trigger] self.released(nx, nz, n)[k]
                        == self.chunk_indices@[i]->0,
            forall|k: int, l: int|
                0 <= k < l < self.released(nx, nz, n).len() ==> #[trigger] self.released(nx, nz, n)[k]
                    != #[trigger] self.released(nx, nz, n)[l],
        decreases n,
    {
        if n > 0 {
            self.lemma_released(nx, nz, n - 1);
            let rest = self.released(nx, nz, n - 1);
            let all = self.released(nx, nz, n);
            let at = self.spec_chunk_offset(n - 1);
            let gone = self.chunk_indices@[n - 1] is Some && !in_window_at(
                nx,
                nz,
                at[0] as int,
                at[2] as int,
            );
            if gone {
                let s = self.chunk_indices@[n - 1]->0;
                assert(all == rest.push(s));
                assert(self.is_mapped(s as int));
                self.lemma_places_differ(self.place_of(s as int), n - 1);
            } else {
                assert(all == rest);
            }
            assert forall|k: int| 0 <= k < all.len() implies {
                let s = #[trigger] all[k];
                &&& s < CHUNKS_ARRAY_SIZE
                &&& self.is_mapped(s as int)
                &&& self.place_of(s as int) < n
                &&& !in_window_at(
                    nx,
                    nz,
                    self.spec_chunk_offset(self.place_of(s as int))[0] as int,
                    self.spec_chunk_offset(self.place_of(s as int))[2] as int,
                )
            } by {
                if k < rest.len() {
                    assert(all[k] == rest[k]);
                }
            }
            assert forall|i: int|
                0 <= i < n && self.chunk_indices@[i] is Some && !in_window_at(
                    nx,
                    nz,
                    self.spec_chunk_offset(i)[0] as int,
                    self.spec_chunk_offset(i)[2] as int,
                ) implies exists|k: int|
                0 <= k < all.len() && #[trigger] all[k] == self.chunk_indices@[i]->0 by {
                if i < n - 1 {
                    let k = choose|k: int|
                        0 <= k < rest.len() && #[trigger] rest[k] == self.chunk_indices@[i]->0;
                    assert(all[k] == self.chunk_indices@[i]->0);
                } else {
                    assert(all[rest.len() as int] == self.chunk_indices@[i]->0);
                }
            }
            assert forall|k: int, l: int| 0 <= k < l < all.len() implies #[trigger] all[k]
                != #[trigger] all[l] by {
                if l < rest.len() {
                    assert(all[k] == rest[k] && all[l] == rest[l]);
                } else {
                    assert(all[k] == rest[k]);
                    assert(self.place_of(rest[k] as int) < n - 1);
                }
            }
        }
    }

    /// Moves the window so that the chunk under the viewpoint is the one
    /// around which its corner is set.
    ///
    /// `view_position` is the block the viewpoint is in. While the
    /// viewpoint stays in the chunk it was in, nothing changes. Otherwise
    /// every loaded chunk that the window still covers stays in its slot
    /// and is found at its new place, and the slots of the others join the
    /// free list in the order of their old places. No chunk is loaded or
    /// changed.
    ///
    /// Returns whether the window moved.
    pub fn update(&mut self, view_position: [i32; 3]) -> (moved: bool)
        requires
            old(self).wf(),
        ensures
            final(self).wf(),
            moved <==> chunk_coord(view_position[0] as int) != old(self).center_offset[0]
                || chunk_coord(view_position[2] as int) != old(self).center_offset[2],
            !moved ==> final(self).same_as(*old(self)),
            moved ==> {
                let cx = chunk_coord(view_position[0] as int);
                let cz = chunk_coord(view_position[2] as int);
                let nx = cx - CHUNKS_VIEW_SIZE / 2;
                let nz = cz - CHUNKS_VIEW_SIZE / 2;
                &&& final(self).center_offset == [cx as i32, 0i32, cz as i32]
                &&& final(self).chunks_origin == [nx as i32, 0i32, nz as i32]
                &&& final(self).chunks@ == old(self).chunks@
                &&& final(self).updated_indices@ == old(self).updated_indices@
                &&& final(self).chunk_indices@ == Seq::new(
                    CHUNKS_ARRAY_SIZE as nat,
                    |j: int| old(self).kept_at(nx, nz, j),
                )
                &&& final(self).free_chunk_indices@ == old(self).free_chunk_indices@
                    + old(self).released(nx, nz, CHUNKS_ARRAY_SIZE as int)
            },
    {
        let ghost before = *self;
        let new_center_offset = Self::world_pos_to_chunk_offset(
            [view_position[0] as i64, view_position[1] as i64, view_position[2] as i64],
        );
        let center_x: i32 = new_center_offset[0] as i32;
        let center_z: i32 = new_center_offset[2] as i32;
        let origin_x: i32 = center_x - CHUNKS_VIEW_SIZE as i32 / 2;
        let origin_z: i32 = center_z - CHUNKS_VIEW_SIZE as i32 / 2;
        if origin_x == self.chunks_origin[0] && origin_z == self.chunks_origin[2] {
            proof {
                assert forall|t: int| 0 <= t < CHUNKS_ARRAY_SIZE implies (#[trigger] self.is_free(t)
                    <==> !self.is_mapped(t)) by {
                    assert(before.is_free(t) <==> !before.is_mapped(t));
                }
            }
            return false;
        }
        self.center_offset = [center_x, 0, center_z];
        self.chunks_origin = [origin_x, 0, origin_z];

        let ghost nx = origin_x as int;
        let ghost nz = origin_z as int;
        let mut fresh: Vec<Option<usize>> = Vec::new();
        let mut j: usize = 0;
        while j < CHUNKS_ARRAY_SIZE
            invariant
                j <= CHUNKS_ARRAY_SIZE,
                fresh@.len() == j,
                forall|k: int| 0 <= k < j ==> #[trigger] fresh@[k] is None,
            decreases CHUNKS_ARRAY_SIZE - j,
        {
            fresh.push(None);
            j += 1;
        }

        let mut i: usize = 0;
        while i < CHUNKS_ARRAY_SIZE
            invariant
                i <= CHUNKS_ARRAY_SIZE,
                before.wf(),
                nx == origin_x,
                nz == origin_z,
                self.chunks@ == before.chunks@,
                self.chunk_indices@ == before.chunk_indices@,
                self.updated_indices@ == before.updated_indices@,
                self.center_offset == [center_x, 0i32, center_z],
                self.chunks_origin == [origin_x, 0i32, origin_z],
                self.free_chunk_indices@ == before.free_chunk_indices@ + before.released(
                    nx,
                    nz,
                    i as int,
                ),
                fresh@.len() == CHUNKS_ARRAY_SIZE,
                forall|j: int|
                    0 <= j < CHUNKS_ARRAY_SIZE ==> #[trigger] fresh@[j] == (if before.spec_chunk_in_bounds(
                        nx + j % (CHUNKS_VIEW_SIZE as int),
                        nz + j / (CHUNKS_VIEW_SIZE as int),
                    ) && before.spec_chunk_world_index(
                        nx + j % (CHUNKS_VIEW_SIZE as int),
                        nz + j / (CHUNKS_VIEW_SIZE as int),
                    ) < i {
                        before.kept_at(nx, nz, j)
                    } else {
                        None
                    }),
            decreases CHUNKS_ARRAY_SIZE - i,
        {
            assert(CHUNKS_VIEW_SIZE == 2 && CHUNKS_ARRAY_SIZE == 4);
            match self.chunk_indices[i] {
                Some(chunk_index) => {
                    let chunk_offset = self.chunks[chunk_index].offset;
                    assert(chunk_offset == before.spec_chunk_offset(i as int));
                    let at: [i64; 3] = [
                        chunk_offset[0] as i64,
                        chunk_offset[1] as i64,
                        chunk_offset[2] as i64,
                    ];
                    if self.chunk_in_bounds(at) {
                        let new_chunk_world_index = self.get_chunk_world_index(at);
                        fresh[new_chunk_world_index] = Some(chunk_index);
                    } else {
                        self.free_chunk_indices.push_back(chunk_index);
                        assert(before.released(nx, nz, i as int + 1) == before.released(
                            nx,
                            nz,
                            i as int,
                        ).push(chunk_index));
                        assert(self.free_chunk_indices@ =~= before.free_chunk_indices@
                            + before.released(nx, nz, i as int + 1));
                    }
                },
                None => {},
            }
            i += 1;
        }
        self.chunk_indices = fresh;
        proof {
            assert(CHUNKS_VIEW_SIZE == 2 && CHUNKS_ARRAY_SIZE == 4);
            assert forall|j: int| 0 <= j < CHUNKS_ARRAY_SIZE implies #[trigger] self.chunk_indices@[j]
                == before.kept_at(nx, nz, j) by {
                let cx = nx + j % 2;
                let cz = nz + j / 2;
                if before.spec_chunk_in_bounds(cx, cz) {
                    assert(0 <= before.spec_chunk_world_index(cx, cz) < 4);
                }
            }
            assert(self.chunk_indices@ =~= Seq::new(
                CHUNKS_ARRAY_SIZE as nat,
                |j: int| before.kept_at(nx, nz, j),
            ));
            before.lemma_moved_wf(*self, nx, nz);
        }
        true
    }

    /// The terrain that a move of the window leaves is well formed.
    proof fn lemma_moved_wf(self, after: Terrain, nx: int, nz: int)
        requires
            self.wf(),
            nx + CHUNKS_VIEW_SIZE <= i32::MAX,
            nz + CHUNKS_VIEW_SIZE <= i32::MAX,
            i32::MIN <= nx,
            i32::MIN <= nz,
            nx + CHUNKS_VIEW_SIZE / 2 <= i32::MAX,
            after.center_offset == [
                (nx + CHUNKS_VIEW_SIZE / 2) as i32,
                0i32,
                (nz + CHUNKS_VIEW_SIZE / 2) as i32,
            ],
            after.chunks_origin == [nx as i32, 0i32, nz as i32],
            after.chunks@ == self.chunks@,
            after.updated_indices@ == self.updated_indices@,
            after.chunk_indices@ == Seq::new(
                CHUNKS_ARRAY_SIZE as nat,
                |j: int| self.kept_at(nx, nz, j),
            ),
            after.free_chunk_indices@ == self.free_chunk_indices@ + self.released(
                nx,
                nz,
                CHUNKS_ARRAY_SIZE as int,
            ),
        ensures
            after.wf(),
    {
        assert(CHUNKS_VIEW_SIZE == 2 && CHUNKS_ARRAY_SIZE == 4);
        let n = CHUNKS_ARRAY_SIZE as int;
        let gone = self.released(nx, nz, n);
        self.lemma_released(nx, nz, n);
        // A place of the moved window holds what the place of the same chunk held.
        assert forall|j: int| 0 <= j < n implies (#[trigger] after.chunk_indices@[j] matches Some(s)
            ==> {
            &&& s < CHUNKS_ARRAY_SIZE
            &&& after.chunks@[s as int].offset == after.spec_chunk_offset(j)
        }) by {
            if let Some(s) = after.chunk_indices@[j] {
                let cx = nx + j % 2;
                let cz = nz + j / 2;
                assert(after.chunk_indices@[j] == self.kept_at(nx, nz, j));
                assert(self.spec_chunk_in_bounds(cx, cz));
                let i = self.spec_chunk_world_index(cx, cz);
                assert(self.chunk_indices@[i] == Some(s));
                let a = self.spec_chunk_offset(i);
                let b = after.spec_chunk_offset(j);
                assert(a[0] == b[0] && a[1] == b[1] && a[2] == b[2]);
                assert(a == b);
            }
        }
        assert forall|k: int| 0 <= k < after.free_chunk_indices@.len() implies #[trigger] after.free_chunk_indices@[k]
            < CHUNKS_ARRAY_SIZE by {
            if k >= self.free_chunk_indices@.len() {
                assert(after.free_chunk_indices@[k] == gone[k - self.free_chunk_indices@.len()]);
            }
        }
        assert forall|k: int, l: int|
            0 <= k < l < after.free_chunk_indices@.len() implies #[trigger] after.free_chunk_indices@[k]
            != #[trigger] after.free_chunk_indices@[l] by {
            let m = self.free_chunk_indices@.len() as int;
            if l < m {
            } else if k >= m {
                assert(after.free_chunk_indices@[k] == gone[k - m]);
                assert(after.free_chunk_indices@[l] == gone[l - m]);
            } else {
                let s = gone[l - m];
                assert(after.free_chunk_indices@[l] == s);
                assert(self.is_mapped(s as int));
                assert(!self.is_free(s as int));
            }
        }
        assert forall|s: int| 0 <= s < n implies (#[trigger] after.is_free(s) <==> !after.is_mapped(
            s,
        )) by {
            let m = self.free_chunk_indices@.len() as int;
            assert(self.is_free(s) <==> !self.is_mapped(s));
            if after.is_mapped(s) {
                let j = after.place_of(s);
                let cx = nx + j % 2;
                let cz = nz + j / 2;
                assert(after.chunk_indices@[j] == self.kept_at(nx, nz, j));
                let i = self.spec_chunk_world_index(cx, cz);
                assert(self.chunk_indices@[i] == Some(s as usize));
                assert(self.is_mapped(s));
                self.lemma_places_differ(self.place_of(s), i);
                if after.is_free(s) {
                    let k = choose|k: int|
                        0 <= k < after.free_chunk_indices@.len()
                            && #[trigger] after.free_chunk_indices@[k] == s;
                    if k < m {
                        assert(self.free_chunk_indices@[k] == s);
                        assert(self.is_free(s));
                    } else {
                        assert(gone[k - m] == s);
                        let at = self.spec_chunk_offset(i);
                        assert(at[0] == cx && at[2] == cz);
                    }
                }
            } else {
                if self.is_mapped(s) {
                    let i = self.place_of(s);
                    let at = self.spec_chunk_offset(i);
                    if in_window_at(nx, nz, at[0] as int, at[2] as int) {
                        let j = (at[2] - nz) * 2 + (at[0] - nx);
                        assert(0 <= j < n);
                        assert(nx + j % 2 == at[0] && nz + j / 2 == at[2]);
                        assert(self.spec_chunk_world_index(at[0] as int, at[2] as int) == i);
                        assert(after.chunk_indices@[j] == self.kept_at(nx, nz, j));
                        assert(after.chunk_indices@[j] == Some(s as usize));
                        assert(after.is_mapped(s));
                    } else {
                        let k = choose|k: int|
                            0 <= k < gone.len() && #[trigger] gone[k] == self.chunk_indices@[i]->0;
                        assert(after.free_chunk_indices@[m + k] == s);
                        assert(after.is_free(s));
                    }
                } else {
                    let k = choose|k: int|
                        0 <= k < self.free_chunk_indices@.len()
                            && #[trigger] self.free_chunk_indices@[k] == s;
                    assert(after.free_chunk_indices@[k] == s);
                    assert(after.is_free(s));
                }
            }
        }
    }

    /// Whether place `i` of the window is one that a call of
    /// [`Terrain::load_empty_chunks`] with `heights` loads: it holds no
    /// chunk, and `heights` has a height map for it.
    pub open spec fn to_fill(self, heights: Seq<Option<HeightMap>>, i: int) -> bool {
        &&& 0 <= i < CHUNKS_ARRAY_SIZE
        &&& self.chunk_indices@[i] is None
        &&& i < heights.len()
        &&& heights[i] is Some
    }

    /// How many of the first `n` places of the window are to be filled.
    pub open spec fn fill_count(self, heights: Seq<Option<HeightMap>>, n: int) -> int
        decreases n,
    {
        if n <= 0 {
            0
        } else {
            self.fill_count(heights, n - 1) + if self.to_fill(heights, n - 1) {
                1int
            } else {
                0int
            }
        }
    }

    /// The quads of the faces of the chunk in slot `s` that can be seen in
    /// this terrain.
    pub open spec fn slot_quads(self, s: int) -> Seq<Quad> {
        all_quads(Some(&self), self.chunks@[s].blocks, self.chunks@[s].offset)
    }

    /// Whether `result` is what meshing the chunk in slot `s` gives: the
    /// mesh of the faces that can be seen, or an error if they have too
    /// many vertices.
    pub open spec fn is_mesh_of_slot(self, s: int, result: Result<Mesh<BlockVertex>, MeshError>) -> bool {
        &&& result is Ok <==> 4 * self.slot_quads(s).len() <= MAX_VERTICES
        &&& result matches Ok(m) ==> {
            &&& m.verts@ == quad_verts(self.slot_quads(s))
            &&& m.indices@ == quad_indices(0, self.slot_quads(s).len() as int)
        }
    }

    /// Whether the chunk in slot `s` carries its mesh: the mesh of the
    /// faces that can be seen, or an empty mesh if they have too many
    /// vertices.
    pub open spec fn slot_meshed(self, s: int) -> bool {
        let mesh = self.chunks@[s].mesh;
        if 4 * self.slot_quads(s).len() <= MAX_VERTICES {
            &&& mesh.verts@ == quad_verts(self.slot_quads(s))
            &&& mesh.indices@ == quad_indices(0, self.slot_quads(s).len() as int)
        } else {
            &&& mesh.verts@.len() == 0
            &&& mesh.indices@.len() == 0
        }
    }

    /// Whether two terrains have the same window and the same blocks.
    pub open spec fn same_blocks(self, other: Terrain) -> bool {
        &&& self.chunk_indices@ == other.chunk_indices@
        &&& self.chunks_origin == other.chunks_origin
        &&& self.chunks@.len() == other.chunks@.len()
        &&& forall|t: int|
            0 <= t < self.chunks@.len() ==> (#[trigger] self.chunks@[t]).blocks
                == other.chunks@[t].blocks
    }

    /// Which faces can be seen depends on the window and the blocks only,
    /// not on meshes or on which slots await an upload.
    pub proof fn lemma_quads_frame(self, other: Terrain, blocks: Blocks, offset: [i32; 3], n: int)
        requires
            self.same_blocks(other),
            self.wf(),
        ensures
            chunk_quads(Some(&self), blocks, offset, n) == chunk_quads(
                Some(&other),
                blocks,
                offset,
                n,
            ),
        decreases n,
    {
        if n > 0 {
            self.lemma_quads_frame(other, blocks, offset, n - 1);
            let c = n - 1;
            let x = cell_x(c);
            let y = cell_y(c);
            let z = cell_z(c);
            assert(CHUNKS_VIEW_SIZE == 2 && CHUNKS_ARRAY_SIZE == 4);
            assert forall|k: int| 0 <= k < 6 implies #[trigger] face_flags(
                Some(&self),
                blocks,
                offset,
                x,
                y,
                z,
            )[k] == face_flags(Some(&other), blocks, offset, x, y, z)[k] by {
                let d = block_at(blocks, x, y, z).quads[k].side.spec_to_vec();
                let px = x + d[0];
                let py = y + d[1];
                let pz = z + d[2];
                let wx = px + offset[0] * CHUNK_AREA;
                let wz = pz + offset[2] * CHUNK_AREA;
                let cx = chunk_coord(wx);
                let cz = chunk_coord(wz);
                if self.spec_chunk_in_bounds(cx, cz) {
                    let i = self.spec_chunk_world_index(cx, cz);
                    assert(0 <= i < 4);
                    if let Some(slot) = self.chunk_indices@[i] {
                        assert(slot < CHUNKS_ARRAY_SIZE);
                        assert(self.chunks@[slot as int].blocks == other.chunks@[slot as int].blocks);
                    }
                }
            }
            assert(face_flags(Some(&self), blocks, offset, x, y, z) =~= face_flags(
                Some(&other),
                blocks,
                offset,
                x,
                y,
                z,
            ));
        }
    }

    /// Meshes the chunk in slot `s` as it stands in this terrain.
    pub fn mesh_slot(&self, s: usize) -> (result: Result<Mesh<BlockVertex>, MeshError>)
        requires
            self.wf(),
            s < CHUNKS_ARRAY_SIZE,
        ensures
            self.is_mesh_of_slot(s as int, result),
    {
        assert(self.chunks@[s as int].wf());
        self.update_mesh(&self.chunks[s].blocks, &self.chunks[s].offset)
    }

    /// Runs [`Terrain::mesh_slot`] on each of `slots`, the slots shared out
    /// among the threads of rayon's pool.
    ///
    /// Trusted: `par_iter().map(..).collect()` of rayon into a vector calls
    /// the closure once for each element of the slice and gives the results
    /// in the order of the elements.
    #[verifier::external_body]
    fn mesh_slots(&self, slots: &Vec<usize>) -> (meshes: Vec<Result<Mesh<BlockVertex>, MeshError>>)
        requires
            self.wf(),
            forall|k: int| 0 <= k < slots@.len() ==> #[trigger] slots@[k] < CHUNKS_ARRAY_SIZE,
        ensures
            meshes@.len() == slots@.len(),
            forall|k: int|
                0 <= k < slots@.len() ==> self.is_mesh_of_slot(slots@[k] as int, #[trigger] meshes@[k]),
    {
        slots.par_iter().map(|s| self.mesh_slot(*s)).collect()
    }

    /// The slots whose mesh awaits its upload, in rising order, among the
    /// first `n`.
    pub open spec fn stale_slots(self, n: int) -> Seq<usize>
        decreases n,
    {
        if n <= 0 {
            Seq::empty()
        } else if self.updated_indices@[n - 1] {
            self.stale_slots(n - 1).push((n - 1) as usize)
        } else {
            self.stale_slots(n - 1)
        }
    }

    /// Hands out the slots whose mesh was rebuilt since the last call, in
    /// rising order, and takes them as uploaded.
    pub fn take_updated(&mut self) -> (slots: Vec<usize>)
        requires
            old(self).wf(),
        ensures
            final(self).wf(),
            slots@ == old(self).stale_slots(CHUNKS_ARRAY_SIZE as int),
            forall|s: int| 0 <= s < CHUNKS_ARRAY_SIZE ==> !#[trigger] final(self).updated_indices@[s],
            final(self).chunks@ == old(self).chunks@,
            final(self).chunk_indices@ == old(self).chunk_indices@,
            final(self).free_chunk_indices@ == old(self).free_chunk_indices@,
            final(self).center_offset == old(self).center_offset,
            final(self).chunks_origin == old(self).chunks_origin,
    {
        let ghost before = *self;
        let mut slots: Vec<usize> = Vec::new();
        let mut i: usize = 0;
        while i < CHUNKS_ARRAY_SIZE
            invariant
                i <= CHUNKS_ARRAY_SIZE,
                before.wf(),
                slots@ == before.stale_slots(i as int),
                self.updated_indices@.len() == CHUNKS_ARRAY_SIZE,
                forall|s: int| 0 <= s < i ==> !#[trigger] self.updated_indices@[s],
                forall|s: int|
                    i <= s < CHUNKS_ARRAY_SIZE ==> #[trigger] self.updated_indices@[s]
                        == before.updated_indices@[s],
                self.chunks@ == before.chunks@,
                self.chunk_indices@ == before.chunk_indices@,
                self.free_chunk_indices@ == before.free_chunk_indices@,
                self.center_offset == before.center_offset,
                self.chunks_origin == before.chunks_origin,
            decreases CHUNKS_ARRAY_SIZE - i,
        {
            if self.updated_indices[i] {
                slots.push(i);
                self.updated_indices[i] = false;
            }
            i += 1;
        }
        proof {
            assert forall|t: int| 0 <= t < CHUNKS_ARRAY_SIZE implies (#[trigger] self.is_free(t)
                <==> !self.is_mapped(t)) by {
                assert(before.is_free(t) <==> !before.is_mapped(t));
            }
        }
        slots
    }

    /// Whether every place of the window holds a chunk.
    pub open spec fn window_full(self) -> bool {
        forall|i: int| 0 <= i < CHUNKS_ARRAY_SIZE ==> #[trigger] self.chunk_indices@[i] is Some
    }

    /// Whether `heights` has a height map for every place of the window
    /// that holds no chunk.
    pub open spec fn all_to_fill(self, heights: Seq<Option<HeightMap>>) -> bool {
        forall|i: int|
            0 <= i < CHUNKS_ARRAY_SIZE && #[trigger] self.chunk_indices@[i] is None
                ==> self.to_fill(heights, i)
    }

    /// Loading puts each new chunk at the offset of its place, and with a
    /// height map for every empty place it fills the window and uses up the
    /// free list.
    pub proof fn lemma_loaded_places(self, after: Terrain, heights: Seq<Option<HeightMap>>)
        requires
            self.wf(),
            after.wf(),
            after.loaded_from(self, heights, CHUNKS_ARRAY_SIZE as int),
        ensures
            forall|i: int|
                self.to_fill(heights, i) ==> {
                    let s = #[trigger] self.free_chunk_indices@[self.fill_count(heights, i)] as int;
                    &&& after.chunk_indices@[i] == Some(s as usize)
                    &&& 0 <= s < CHUNKS_ARRAY_SIZE
                    &&& after.chunks@[s].offset == self.spec_chunk_offset(i)
                },
            forall|i: int|
                0 <= i < CHUNKS_ARRAY_SIZE && self.chunk_indices@[i] is Some
                    ==> #[trigger] after.chunk_indices@[i] == self.chunk_indices@[i],
            self.all_to_fill(heights) ==> after.window_full()
                && after.free_chunk_indices@.len() == 0,
    {
        assert forall|i: int| self.to_fill(heights, i) implies {
            let s = #[trigger] self.free_chunk_indices@[self.fill_count(heights, i)] as int;
            &&& after.chunk_indices@[i] == Some(s as usize)
            &&& 0 <= s < CHUNKS_ARRAY_SIZE
            &&& after.chunks@[s].offset == self.spec_chunk_offset(i)
        } by {
            let s = self.free_chunk_indices@[self.fill_count(heights, i)];
            assert(after.chunk_indices@[i] == Some(s));
            assert(after.chunks@[s as int].offset == after.spec_chunk_offset(i));
            assert(after.spec_chunk_offset(i) == self.spec_chunk_offset(i));
        }
        assert forall|i: int|
            0 <= i < CHUNKS_ARRAY_SIZE && self.chunk_indices@[i] is Some implies #[trigger] after.chunk_indices@[i]
            == self.chunk_indices@[i] by {
            assert(!self.to_fill(heights, i));
        }
        if self.all_to_fill(heights) {
            assert forall|i: int| 0 <= i < CHUNKS_ARRAY_SIZE implies #[trigger] after.chunk_indices@[i] is Some by {
                if self.chunk_indices@[i] is None {
                    assert(self.to_fill(heights, i));
                }
            }
            after.lemma_full_window_has_no_free_slot();
        }
    }

    /// Where every one of the first `n` places is to be filled, there are
    /// `n` to fill.
    pub proof fn lemma_fill_count_all(self, heights: Seq<Option<HeightMap>>, n: int)
        requires
            0 <= n,
            forall|i: int| 0 <= i < n ==> self.to_fill(heights, i),
        ensures
            self.fill_count(heights, n) == n,
        decreases n,
    {
        if n > 0 {
            self.lemma_fill_count_all(heights, n - 1);
        }
    }

    /// Whether `self` is what loading leaves of `before` as far as slots,
    /// places and blocks go: each place to be filled among the first `n`
    /// has got the next slot of the free list, and the chunk in that slot
    /// lies at the place and holds the terrain of its height map; nothing
    /// else has changed.
    pub open spec fn loaded_from(self, before: Terrain, heights: Seq<Option<HeightMap>>, n: int) -> bool {
        &&& self.center_offset == before.center_offset
        &&& self.chunks_origin == before.chunks_origin
        &&& self.chunks@.len() == CHUNKS_ARRAY_SIZE
        &&& self.chunk_indices@.len() == CHUNKS_ARRAY_SIZE
        &&& self.free_chunk_indices@ == before.free_chunk_indices@.skip(
            before.fill_count(heights, n),
        )
        &&& forall|i: int|
            0 <= i < CHUNKS_ARRAY_SIZE ==> #[trigger] self.chunk_indices@[i] == (if i < n
                && before.to_fill(heights, i) {
                Some(before.free_chunk_indices@[before.fill_count(heights, i)])
            } else {
                before.chunk_indices@[i]
            })
        &&& forall|i: int|
            0 <= i < n && before.to_fill(heights, i) ==> grid_generated(
                self.chunks@[(#[trigger] before.free_chunk_indices@[before.fill_count(
                    heights,
                    i,
                )]) as int].blocks,
                before.spec_chunk_offset(i),
                heights[i]->0,
            )
        &&& forall|t: int|
            0 <= t < CHUNKS_ARRAY_SIZE && (before.is_mapped(t) || self.is_free(t)) ==> {
                &&& (#[trigger] self.chunks@[t]).blocks == before.chunks@[t].blocks
                &&& self.chunks@[t].offset == before.chunks@[t].offset
            }
    }

    /// Whether `mesh` is what is kept of the result of meshing: the mesh
    /// itself, or an empty mesh in place of an error.
    pub open spec fn mesh_stored(mesh: Mesh<BlockVertex>, result: Result<Mesh<BlockVertex>, MeshError>) -> bool {
        match result {
            Ok(m) => mesh.verts@ == m.verts@ && mesh.indices@ == m.indices@,
            Err(_) => mesh.verts@.len() == 0 && mesh.indices@.len() == 0,
        }
    }

    /// The first pass of loading: gives each place to fill its slot and
    /// generates the blocks of its chunk. Returns the slots, in the order
    /// of the places.
    fn generate_empty_chunks(&mut self, heights: &Vec<Option<HeightMap>>) -> (filled: Vec<usize>)
        requires
            old(self).wf(),
        ensures
            final(self).wf(),
            final(self).loaded_from(*old(self), heights@, CHUNKS_ARRAY_SIZE as int),
            final(self).updated_indices@ == old(self).updated_indices@,
            0 <= old(self).fill_count(heights@, CHUNKS_ARRAY_SIZE as int)
                <= old(self).free_chunk_indices@.len(),
            filled@ == old(self).free_chunk_indices@.take(
                old(self).fill_count(heights@, CHUNKS_ARRAY_SIZE as int),
            ),
            forall|t: int|
                0 <= t < CHUNKS_ARRAY_SIZE ==> {
                    &&& (#[trigger] final(self).chunks@[t]).mesh == old(self).chunks@[t].mesh
                    &&& final(self).chunks@[t].updated == old(self).chunks@[t].updated
                },
    {
        let ghost before = *self;
        let mut filled: Vec<usize> = Vec::new();
        let mut i: usize = 0;
        proof {
            assert(self.free_chunk_indices@ =~= before.free_chunk_indices@.skip(0));
            assert(filled@ =~= before.free_chunk_indices@.take(0));
        }
        while i < CHUNKS_ARRAY_SIZE
            invariant
                i <= CHUNKS_ARRAY_SIZE,
                before.wf(),
                self.wf(),
                self.loaded_from(before, heights@, i as int),
                self.updated_indices@ == before.updated_indices@,
                filled@ == before.free_chunk_indices@.take(before.fill_count(heights@, i as int)),
                0 <= before.fill_count(heights@, i as int) <= before.free_chunk_indices@.len(),
                forall|t: int|
                    0 <= t < CHUNKS_ARRAY_SIZE ==> {
                        &&& (#[trigger] self.chunks@[t]).mesh == before.chunks@[t].mesh
                        &&& self.chunks@[t].updated == before.chunks@[t].updated
                    },
            decreases CHUNKS_ARRAY_SIZE - i,
        {
            let ghost prev = *self;
            let ghost count = before.fill_count(heights@, i as int);
            if self.chunk_indices[i].is_none() && i < heights.len() {
                if let Some(height_map) = &heights[i] {
                    proof {
                        self.lemma_free_slot_exists(i as int);
                    }
                    if let Some(new_index) = self.acquire_slot(i) {
                        let chunk_offset = self.chunks[new_index].offset;
                        let ghost held = *self;
                        generate_chunk(&mut self.chunks[new_index].blocks, chunk_offset, height_map);
                        filled.push(new_index);
                        proof {
                            assert(before.to_fill(heights@, i as int));
                            before.lemma_loaded_step(prev, held, *self, heights@, i as int);
                            assert(filled@ =~= before.free_chunk_indices@.take(count + 1));
                        }
                    }
                }
            }
            proof {
                if !before.to_fill(heights@, i as int) {
                    before.lemma_loaded_skip(prev, *self, heights@, i as int);
                }
            }
            i += 1;
        }
        filled
    }

    /// The second pass of loading: keeps for each of `slots` the mesh that
    /// was built for it, an empty one where building failed, and marks the
    /// slot for upload. Returns whether building failed for any.
    fn store_meshes(&mut self, slots: &Vec<usize>, meshes: Vec<Result<Mesh<BlockVertex>, MeshError>>) -> (failed: bool)
        requires
            slots@.len() == meshes@.len(),
            forall|j: int| 0 <= j < slots@.len() ==> #[trigger] slots@[j] < CHUNKS_ARRAY_SIZE,
            forall|j: int, l: int|
                0 <= j < l < slots@.len() ==> #[trigger] slots@[j] != #[trigger] slots@[l],
            old(self).chunks@.len() == CHUNKS_ARRAY_SIZE,
            old(self).updated_indices@.len() == CHUNKS_ARRAY_SIZE,
        ensures
            final(self).chunk_indices@ == old(self).chunk_indices@,
            final(self).free_chunk_indices@ == old(self).free_chunk_indices@,
            final(self).center_offset == old(self).center_offset,
            final(self).chunks_origin == old(self).chunks_origin,
            final(self).chunks@.len() == CHUNKS_ARRAY_SIZE,
            final(self).updated_indices@.len() == CHUNKS_ARRAY_SIZE,
            forall|t: int|
                0 <= t < CHUNKS_ARRAY_SIZE ==> {
                    &&& (#[trigger] final(self).chunks@[t]).blocks == old(self).chunks@[t].blocks
                    &&& final(self).chunks@[t].offset == old(self).chunks@[t].offset
                    &&& final(self).chunks@[t].updated == old(self).chunks@[t].updated
                },
            forall|j: int|
                0 <= j < slots@.len() ==> {
                    &&& final(self).updated_indices@[#[trigger] slots@[j] as int]
                    &&& Self::mesh_stored(final(self).chunks@[slots@[j] as int].mesh, meshes@[j])
                },
            forall|t: int|
                0 <= t < CHUNKS_ARRAY_SIZE && !(exists|j: int|
                    0 <= j < slots@.len() && slots@[j] == t) ==> {
                    &&& (#[trigger] final(self).chunks@[t]).mesh == old(self).chunks@[t].mesh
                    &&& final(self).updated_indices@[t] == old(self).updated_indices@[t]
                },
            failed <==> exists|j: int| 0 <= j < meshes@.len() && #[trigger] meshes@[j] is Err,
    {
        let ghost before = *self;
        let ghost results = meshes@;
        let mut meshes = meshes;
        let mut failed: bool = false;
        let mut k: usize = slots.len();
        while k > 0
            invariant
                k <= slots@.len(),
                slots@.len() == results.len(),
                meshes@ == results.take(k as int),
                before.chunks@.len() == CHUNKS_ARRAY_SIZE,
                before.updated_indices@.len() == CHUNKS_ARRAY_SIZE,
                forall|j: int| 0 <= j < slots@.len() ==> #[trigger] slots@[j] < CHUNKS_ARRAY_SIZE,
                forall|j: int, l: int|
                    0 <= j < l < slots@.len() ==> #[trigger] slots@[j] != #[trigger] slots@[l],
                self.chunk_indices@ == before.chunk_indices@,
                self.free_chunk_indices@ == before.free_chunk_indices@,
                self.center_offset == before.center_offset,
                self.chunks_origin == before.chunks_origin,
                self.chunks@.len() == CHUNKS_ARRAY_SIZE,
                self.updated_indices@.len() == CHUNKS_ARRAY_SIZE,
                forall|t: int|
                    0 <= t < CHUNKS_ARRAY_SIZE ==> {
                        &&& (#[trigger] self.chunks@[t]).blocks == before.chunks@[t].blocks
                        &&& self.chunks@[t].offset == before.chunks@[t].offset
                        &&& self.chunks@[t].updated == before.chunks@[t].updated
                    },
                forall|j: int|
                    k <= j < slots@.len() ==> {
                        &&& self.updated_indices@[#[trigger] slots@[j] as int]
                        &&& Self::mesh_stored(self.chunks@[slots@[j] as int].mesh, results[j])
                    },
                forall|t: int|
                    0 <= t < CHUNKS_ARRAY_SIZE && !(exists|j: int|
                        k <= j < slots@.len() && slots@[j] == t) ==> {
                        &&& (#[trigger] self.chunks@[t]).mesh == before.chunks@[t].mesh
                        &&& self.updated_indices@[t] == before.updated_indices@[t]
                    },
                failed <==> exists|j: int| k <= j < results.len() && #[trigger] results[j] is Err,
            decreases k,
        {
            k -= 1;
            let s: usize = slots[k];
            let ghost prev = *self;
            let ghost prev_failed = failed;
            let popped = meshes.pop();
            assert(popped == Some(results[k as int]));
            assert(meshes@ =~= results.take(k as int));
            match popped {
                Some(Ok(mesh)) => {
                    self.chunks[s].mesh = mesh;
                },
                _ => {
                    self.chunks[s].mesh = Mesh::new();
                    failed = true;
                },
            }
            self.updated_indices[s] = true;
            proof {
                assert forall|j: int| k <= j < slots@.len() implies {
                    &&& self.updated_indices@[#[trigger] slots@[j] as int]
                    &&& Self::mesh_stored(self.chunks@[slots@[j] as int].mesh, results[j])
                } by {
                    if j > k {
                        assert(slots@[j] != slots@[k as int]);
                        assert(Self::mesh_stored(prev.chunks@[slots@[j] as int].mesh, results[j]));
                    }
                }
                assert forall|t: int|
                    0 <= t < CHUNKS_ARRAY_SIZE && !(exists|j: int|
                        k <= j < slots@.len() && slots@[j] == t) implies {
                    &&& (#[trigger] self.chunks@[t]).mesh == before.chunks@[t].mesh
                    &&& self.updated_indices@[t] == before.updated_indices@[t]
                } by {
                    assert(slots@[k as int] == s);
                    if t == s {
                        assert(k <= k < slots@.len() && slots@[k as int] == t);
                    }
                    if exists|j: int| k + 1 <= j < slots@.len() && slots@[j] == t {
                        let j = choose|j: int| k + 1 <= j < slots@.len() && slots@[j] == t;
                        assert(k <= j < slots@.len() && slots@[j] == t);
                    }
                    assert(prev.chunks@[t].mesh == before.chunks@[t].mesh);
                    assert(self.chunks@[t] == prev.chunks@[t]);
                }
                if prev_failed {
                    let j = choose|j: int| k + 1 <= j < results.len() && #[trigger] results[j] is Err;
                    assert(k <= j < results.len() && results[j] is Err);
                }
                if failed && !prev_failed {
                    assert(results[k as int] is Err);
                }
                if exists|j: int| k <= j < results.len() && #[trigger] results[j] is Err {
                    let j = choose|j: int| k <= j < results.len() && #[trigger] results[j] is Err;
                    if j > k {
                        assert(prev_failed);
                    }
                }
            }
        }
        failed
    }

    /// Loads the chunks that the window covers and does not hold yet.
    ///
    /// `heights[i]` is the height map for the chunk at place `i` of the
    /// window. Every place that holds no chunk and has a height map gets
    /// the slot that has waited longest in the free list, in the order of
    /// the places, and the chunk in that slot is generated from the height
    /// map. Only when all of them are generated are they meshed, each
    /// against its neighbours as they then stand, and marked for upload.
    /// Chunks that were loaded before are left as they are.
    ///
    /// A chunk whose faces have too many vertices gets an empty mesh, and
    /// the call returns an error.
    pub fn load_empty_chunks(&mut self, heights: &Vec<Option<HeightMap>>) -> (result: Result<
        (),
        MeshError,
    >)
        requires
            old(self).wf(),
        ensures
            final(self).wf(),
            final(self).loaded_from(*old(self), heights@, CHUNKS_ARRAY_SIZE as int),
            forall|i: int|
                old(self).to_fill(heights@, i) ==> {
                    let s = #[trigger] old(self).free_chunk_indices@[old(self).fill_count(
                        heights@,
                        i,
                    )] as int;
                    &&& final(self).chunks@[s].offset == old(self).spec_chunk_offset(i)
                    &&& final(self).slot_meshed(s)
                    &&& final(self).updated_indices@[s]
                },
            0 <= old(self).fill_count(heights@, CHUNKS_ARRAY_SIZE as int)
                <= old(self).free_chunk_indices@.len(),
            old(self).all_to_fill(heights@) ==> final(self).window_full()
                && final(self).free_chunk_indices@.len() == 0,
            forall|t: int|
                0 <= t < CHUNKS_ARRAY_SIZE && (old(self).is_mapped(t) || final(self).is_free(t))
                    ==> {
                    &&& (#[trigger] final(self).chunks@[t]).mesh == old(self).chunks@[t].mesh
                    &&& final(self).updated_indices@[t] == old(self).updated_indices@[t]
                },
            forall|t: int|
                0 <= t < CHUNKS_ARRAY_SIZE ==> (#[trigger] final(self).chunks@[t]).updated
                    == old(self).chunks@[t].updated,
            result is Err <==> exists|i: int|
                old(self).to_fill(heights@, i) && 4 * final(self).slot_quads(
                    #[trigger] old(self).free_chunk_indices@[old(self).fill_count(heights@, i)] as int,
                ).len() > MAX_VERTICES,
    {
        let ghost before = *self;
        let filled = self.generate_empty_chunks(heights);
        let ghost mid = *self;
        let meshes = self.mesh_slots(&filled);
        let ghost results = meshes@;
        let failed = self.store_meshes(&filled, meshes);
        proof {
            before.lemma_loaded_done(mid, *self, heights@, filled@, results, failed);
            before.lemma_loaded_places(*self, heights@);
        }
        if failed {
            Err(MeshError::TooManyVertices)
        } else {
            Ok(())
        }
    }

    /// The number of places to fill grows with the number of places looked
    /// at, by at most one per place.
    pub proof fn lemma_fill_count(self, heights: Seq<Option<HeightMap>>, m: int, n: int)
        requires
            0 <= m <= n,
        ensures
            0 <= self.fill_count(heights, m) <= self.fill_count(heights, n),
            self.fill_count(heights, n) - self.fill_count(heights, m) <= n - m,
            m < n && self.to_fill(heights, m) ==> self.fill_count(heights, m) < self.fill_count(
                heights,
                n,
            ),
        decreases n,
    {
        if m < n {
            self.lemma_fill_count(heights, m, n - 1);
        } else {
            if n > 0 {
                self.lemma_fill_count(heights, 0, n - 1);
                self.lemma_fill_count(heights, n - 1, n - 1);
            }
        }
    }

    /// Each of the first slots of the free list, as many as there are
    /// places to fill, goes to one of those places.
    pub proof fn lemma_fill_place(self, heights: Seq<Option<HeightMap>>, n: int, j: int) -> (i: int)
        requires
            0 <= n <= CHUNKS_ARRAY_SIZE,
            0 <= j < self.fill_count(heights, n),
        ensures
            0 <= i < n,
            self.to_fill(heights, i),
            self.fill_count(heights, i) == j,
        decreases n,
    {
        if self.to_fill(heights, n - 1) && self.fill_count(heights, n - 1) == j {
            n - 1
        } else {
            self.lemma_fill_place(heights, n - 1, j)
        }
    }

    /// Loading one more place leaves the terrain well formed and loaded as
    /// far as that place.
    proof fn lemma_loaded_step(
        self,
        prev: Terrain,
        held: Terrain,
        after: Terrain,
        heights: Seq<Option<HeightMap>>,
        i: int,
    )
        requires
            self.wf(),
            prev.wf(),
            held.wf(),
            0 <= i < CHUNKS_ARRAY_SIZE,
            prev.loaded_from(self, heights, i),
            self.to_fill(heights, i),
            0 <= self.fill_count(heights, i) <= self.free_chunk_indices@.len(),
            prev.free_chunk_indices@.len() > 0,
            held.free_chunk_indices@ == prev.free_chunk_indices@.skip(1),
            held.chunk_indices@ == prev.chunk_indices@.update(
                i,
                Some(prev.free_chunk_indices@[0]),
            ),
            held.center_offset == prev.center_offset,
            held.chunks_origin == prev.chunks_origin,
            forall|t: int|
                0 <= t < CHUNKS_ARRAY_SIZE && t != prev.free_chunk_indices@[0]
                    ==> #[trigger] held.chunks@[t] == prev.chunks@[t],
            after.chunk_indices@ == held.chunk_indices@,
            after.free_chunk_indices@ == held.free_chunk_indices@,
            after.updated_indices@ == held.updated_indices@,
            after.center_offset == held.center_offset,
            after.chunks_origin == held.chunks_origin,
            after.chunks@.len() == CHUNKS_ARRAY_SIZE,
            forall|t: int|
                0 <= t < CHUNKS_ARRAY_SIZE && t != prev.free_chunk_indices@[0]
                    ==> #[trigger] after.chunks@[t] == held.chunks@[t],
            after.chunks@[prev.free_chunk_indices@[0] as int].offset
                == held.chunks@[prev.free_chunk_indices@[0] as int].offset,
            grid_wf(
                after.chunks@[prev.free_chunk_indices@[0] as int].blocks,
            ),
            grid_generated(
                after.chunks@[prev.free_chunk_indices@[0] as int].blocks,
                held.chunks@[prev.free_chunk_indices@[0] as int].offset,
                heights[i]->0,
            ),
        ensures
            after.wf(),
            after.loaded_from(self, heights, i + 1),
            self.fill_count(heights, i + 1) == self.fill_count(heights, i) + 1,
            self.fill_count(heights, i + 1) <= self.free_chunk_indices@.len(),
            prev.free_chunk_indices@[0] == self.free_chunk_indices@[self.fill_count(heights, i)],
    {
        let s = prev.free_chunk_indices@[0];
        let count = self.fill_count(heights, i);
        let free = self.free_chunk_indices@;
        assert(prev.free_chunk_indices@ == free.skip(count));
        assert(s == free[count]);
        assert(count < free.len());
        assert(after.free_chunk_indices@ =~= free.skip(count + 1));
        assert(self.spec_chunk_offset(i) == held.spec_chunk_offset(i));
        assert(held.chunk_indices@[i] == Some(s));
        // The terrain is well formed: it is the held one but for the blocks of `s`.
        assert forall|t: int| 0 <= t < CHUNKS_ARRAY_SIZE implies (#[trigger] after.chunks@[t]).wf() by {
            if t != s {
                assert(held.chunks@[t].wf());
            }
        }
        assert forall|j: int| 0 <= j < CHUNKS_ARRAY_SIZE implies (
        #[trigger] after.chunk_indices@[j] matches Some(t) ==> {
            &&& t < CHUNKS_ARRAY_SIZE
            &&& after.chunks@[t as int].offset == after.spec_chunk_offset(j)
        }) by {
            if let Some(t) = held.chunk_indices@[j] {
                assert(held.chunks@[t as int].offset == held.spec_chunk_offset(j));
            }
        }
        assert forall|t: int| 0 <= t < CHUNKS_ARRAY_SIZE implies (#[trigger] after.is_free(t)
            <==> !after.is_mapped(t)) by {
            assert(held.is_free(t) <==> !held.is_mapped(t));
        }
        assert(after.wf());
        // Places.
        assert forall|j: int| 0 <= j < CHUNKS_ARRAY_SIZE implies #[trigger] after.chunk_indices@[j]
            == (if j < i + 1 && self.to_fill(heights, j) {
            Some(free[self.fill_count(heights, j)])
        } else {
            self.chunk_indices@[j]
        }) by {
            if j != i {
                assert(after.chunk_indices@[j] == prev.chunk_indices@[j]);
            }
        }
        // Blocks of the places filled so far.
        assert forall|j: int| 0 <= j < i + 1 && self.to_fill(heights, j) implies grid_generated(
            after.chunks@[(#[trigger] free[self.fill_count(heights, j)]) as int].blocks,
            self.spec_chunk_offset(j),
            heights[j]->0,
        ) by {
            if j < i {
                self.lemma_fill_count(heights, j, i);
                let t = free[self.fill_count(heights, j)];
                assert(t != s);
                assert(prev.chunk_indices@[j] == Some(t));
                assert(t < CHUNKS_ARRAY_SIZE);
                assert(after.chunks@[t as int] == prev.chunks@[t as int]);
            } else {
                assert(held.chunks@[s as int].offset == held.spec_chunk_offset(i));
            }
        }
        // What was loaded before, and what is still free, is untouched.
        assert forall|t: int|
            0 <= t < CHUNKS_ARRAY_SIZE && (self.is_mapped(t) || after.is_free(t)) implies {
            &&& (#[trigger] after.chunks@[t]).blocks == self.chunks@[t].blocks
            &&& after.chunks@[t].offset == self.chunks@[t].offset
        } by {
            assert(self.is_free(s as int));
            if self.is_mapped(t) {
                assert(t != s);
            }
            if after.is_free(t) {
                let k = choose|k: int|
                    0 <= k < after.free_chunk_indices@.len()
                        && #[trigger] after.free_chunk_indices@[k] == t;
                assert(free[count + 1 + k] == t);
                assert(t != s);
                assert(prev.free_chunk_indices@[k + 1] == t);
                assert(prev.is_free(t));
            }
            assert(after.chunks@[t] == prev.chunks@[t]);
        }
    }

    /// A place that is not to be filled leaves the terrain loaded as far as
    /// the next place.
    proof fn lemma_loaded_skip(self, prev: Terrain, after: Terrain, heights: Seq<Option<HeightMap>>, i: int)
        requires
            self.wf(),
            0 <= i < CHUNKS_ARRAY_SIZE,
            prev.loaded_from(self, heights, i),
            !self.to_fill(heights, i),
            after.same_as(prev),
        ensures
            after.loaded_from(self, heights, i + 1),
            self.fill_count(heights, i + 1) == self.fill_count(heights, i),
    {
        assert forall|t: int|
            0 <= t < CHUNKS_ARRAY_SIZE && (self.is_mapped(t) || after.is_free(t)) implies {
            &&& (#[trigger] after.chunks@[t]).blocks == self.chunks@[t].blocks
            &&& after.chunks@[t].offset == self.chunks@[t].offset
        } by {
            if after.is_free(t) {
                let k = choose|k: int|
                    0 <= k < after.free_chunk_indices@.len()
                        && #[trigger] after.free_chunk_indices@[k] == t;
                assert(prev.free_chunk_indices@[k] == t);
                assert(prev.is_free(t));
            }
        }
    }

    /// What [`Terrain::load_empty_chunks`] promises follows from what its
    /// two passes and the meshing between them have done.
    proof fn lemma_loaded_done(
        self,
        mid: Terrain,
        after: Terrain,
        heights: Seq<Option<HeightMap>>,
        filled: Seq<usize>,
        results: Seq<Result<Mesh<BlockVertex>, MeshError>>,
        failed: bool,
    )
        requires
            self.wf(),
            mid.wf(),
            filled == self.free_chunk_indices@.take(
                self.fill_count(heights, CHUNKS_ARRAY_SIZE as int),
            ),
            mid.loaded_from(self, heights, CHUNKS_ARRAY_SIZE as int),
            mid.updated_indices@ == self.updated_indices@,
            forall|t: int|
                0 <= t < CHUNKS_ARRAY_SIZE ==> {
                    &&& (#[trigger] mid.chunks@[t]).mesh == self.chunks@[t].mesh
                    &&& mid.chunks@[t].updated == self.chunks@[t].updated
                },
            0 <= self.fill_count(heights, CHUNKS_ARRAY_SIZE as int)
                <= self.free_chunk_indices@.len(),
            results.len() == self.fill_count(heights, CHUNKS_ARRAY_SIZE as int),
            forall|j: int|
                0 <= j < results.len() ==> mid.is_mesh_of_slot(
                    filled[j] as int,
                    #[trigger] results[j],
                ),
            after.chunk_indices@ == mid.chunk_indices@,
            after.free_chunk_indices@ == mid.free_chunk_indices@,
            after.center_offset == mid.center_offset,
            after.chunks_origin == mid.chunks_origin,
            after.chunks@.len() == CHUNKS_ARRAY_SIZE,
            after.updated_indices@.len() == CHUNKS_ARRAY_SIZE,
            forall|t: int|
                0 <= t < CHUNKS_ARRAY_SIZE ==> {
                    &&& (#[trigger] after.chunks@[t]).blocks == mid.chunks@[t].blocks
                    &&& after.chunks@[t].offset == mid.chunks@[t].offset
                    &&& after.chunks@[t].updated == mid.chunks@[t].updated
                },
            forall|j: int|
                0 <= j < results.len() ==> {
                    &&& after.updated_indices@[#[trigger] filled[j] as int]
                    &&& Self::mesh_stored(after.chunks@[filled[j] as int].mesh, results[j])
                },
            forall|t: int|
                0 <= t < CHUNKS_ARRAY_SIZE && !(exists|j: int|
                    0 <= j < filled.len() && filled[j] == t) ==> {
                    &&& (#[trigger] after.chunks@[t]).mesh == mid.chunks@[t].mesh
                    &&& after.updated_indices@[t] == mid.updated_indices@[t]
                },
            failed <==> exists|j: int| 0 <= j < results.len() && #[trigger] results[j] is Err,
        ensures
            after.wf(),
            after.loaded_from(self, heights, CHUNKS_ARRAY_SIZE as int),
            forall|i: int|
                self.to_fill(heights, i) ==> {
                    let s = #[trigger] self.free_chunk_indices@[self.fill_count(heights, i)] as int;
                    &&& after.slot_meshed(s)
                    &&& after.updated_indices@[s]
                },
            forall|t: int|
                0 <= t < CHUNKS_ARRAY_SIZE && (self.is_mapped(t) || after.is_free(t)) ==> {
                    &&& (#[trigger] after.chunks@[t]).mesh == self.chunks@[t].mesh
                    &&& after.updated_indices@[t] == self.updated_indices@[t]
                },
            forall|t: int|
                0 <= t < CHUNKS_ARRAY_SIZE ==> (#[trigger] after.chunks@[t]).updated
                    == self.chunks@[t].updated,
            failed <==> exists|i: int|
                self.to_fill(heights, i) && 4 * after.slot_quads(
                    #[trigger] self.free_chunk_indices@[self.fill_count(heights, i)] as int,
                ).len() > MAX_VERTICES,
    {
        let n = CHUNKS_ARRAY_SIZE as int;
        let total = self.fill_count(heights, n);
        let free = self.free_chunk_indices@;
        assert(filled.len() == total);
        assert forall|j: int| 0 <= j < total implies #[trigger] filled[j] == free[j] by {}
        assert forall|t: int| 0 <= t < n implies (#[trigger] after.chunks@[t]).wf() by {
            assert(mid.chunks@[t].wf());
        }
        assert forall|j: int| 0 <= j < n implies (#[trigger] after.chunk_indices@[j] matches Some(t)
            ==> {
            &&& t < CHUNKS_ARRAY_SIZE
            &&& after.chunks@[t as int].offset == after.spec_chunk_offset(j)
        }) by {
            if let Some(t) = mid.chunk_indices@[j] {
                assert(mid.chunks@[t as int].offset == mid.spec_chunk_offset(j));
            }
        }
        assert forall|t: int| 0 <= t < n implies (#[trigger] after.is_free(t) <==> !after.is_mapped(
            t,
        )) by {
            assert(mid.is_free(t) <==> !mid.is_mapped(t));
        }
        assert(after.wf());
        assert forall|t: int| 0 <= t < n implies #[trigger] after.slot_quads(t) == mid.slot_quads(
            t,
        ) by {
            after.lemma_quads_frame(
                mid,
                after.chunks@[t].blocks,
                after.chunks@[t].offset,
                TOTAL_CHUNK_SIZE as int,
            );
        }
        assert forall|t: int| 0 <= t < n && (self.is_mapped(t) || after.is_free(t)) implies {
            &&& (#[trigger] after.chunks@[t]).blocks == self.chunks@[t].blocks
            &&& after.chunks@[t].offset == self.chunks@[t].offset
        } by {
            if after.is_free(t) {
                assert(mid.is_free(t));
            }
            assert(mid.chunks@[t].blocks == self.chunks@[t].blocks);
        }
        assert forall|i: int| 0 <= i < n && self.to_fill(heights, i) implies grid_generated(
            after.chunks@[(#[trigger] free[self.fill_count(heights, i)]) as int].blocks,
            self.spec_chunk_offset(i),
            heights[i]->0,
        ) by {
            self.lemma_fill_count(heights, i, n);
            let t = free[self.fill_count(heights, i)];
            assert(mid.chunk_indices@[i] == Some(t));
        }
        assert(after.loaded_from(self, heights, n));
        assert forall|i: int| self.to_fill(heights, i) implies {
            let s = #[trigger] free[self.fill_count(heights, i)] as int;
            &&& after.slot_meshed(s)
            &&& after.updated_indices@[s]
        } by {
            self.lemma_fill_count(heights, i, n);
            let j = self.fill_count(heights, i);
            let s = free[j];
            assert(s == filled[j]);
            assert(s < CHUNKS_ARRAY_SIZE);
            assert(after.slot_quads(s as int) == mid.slot_quads(s as int));
            assert(mid.is_mesh_of_slot(s as int, results[j]));
            assert(Self::mesh_stored(after.chunks@[s as int].mesh, results[j]));
        }
        assert forall|t: int| 0 <= t < n && (self.is_mapped(t) || after.is_free(t)) implies {
            &&& (#[trigger] after.chunks@[t]).mesh == self.chunks@[t].mesh
            &&& after.updated_indices@[t] == self.updated_indices@[t]
        } by {
            if exists|j: int| 0 <= j < filled.len() && filled[j] == t {
                let j = choose|j: int| 0 <= j < filled.len() && filled[j] == t;
                assert(free[j] == t);
                assert(self.is_free(t));
                if after.is_free(t) {
                    let k = choose|k: int|
                        0 <= k < after.free_chunk_indices@.len()
                            && #[trigger] after.free_chunk_indices@[k] == t;
                    assert(free[total + k] == t);
                }
            }
        }
        if failed {
            let j = choose|j: int| 0 <= j < results.len() && #[trigger] results[j] is Err;
            assert(filled[j] == free[j]);
            assert(mid.is_mesh_of_slot(free[j] as int, results[j]));
            let i = self.lemma_fill_place(heights, n, j);
            assert(free[j] < CHUNKS_ARRAY_SIZE);
            assert(after.slot_quads(free[self.fill_count(heights, i)] as int) == mid.slot_quads(
                free[j] as int,
            ));
        }
        if exists|i: int|
            self.to_fill(heights, i) && 4 * after.slot_quads(
                #[trigger] free[self.fill_count(heights, i)] as int,
            ).len() > MAX_VERTICES {
            let i = choose|i: int|
                self.to_fill(heights, i) && 4 * after.slot_quads(
                    #[trigger] free[self.fill_count(heights, i)] as int,
                ).len() > MAX_VERTICES;
            self.lemma_fill_count(heights, i, n);
            let j = self.fill_count(heights, i);
            assert(free[j] < CHUNKS_ARRAY_SIZE);
            assert(after.slot_quads(free[j] as int) == mid.slot_quads(free[j] as int));
            assert(filled[j] == free[j]);
            assert(mid.is_mesh_of_slot(free[j] as int, results[j]));
            assert(results[j] is Err);
        }
    }
}

} // verus!
