//! What holds of every terrain, stated and proved.
use vstd::prelude::*;
use crate::render::atlas::MaterialType;
use crate::render::mesh::{face_visible, lemma_quad_indices_closed, lone_block, MAX_VERTICES};
use crate::scene::terrain::block::Block;
use crate::scene::terrain::chunk::{
    block_at, cell_material, grid_generated, in_chunk, layer_generated, Blocks, HeightMap,
    CHUNK_AREA, CHUNK_Y_SIZE,
};
use crate::scene::terrain::{
    chunk_coord, local_coord, Terrain, CHUNKS_ARRAY_SIZE, CHUNKS_VIEW_SIZE,
};

verus! {

/// A block is fixed by its material, its place and the offset of its
/// chunk: two blocks made for the same three are equal, quads and all.
pub proof fn lemma_block_determined(
    a: Block,
    b: Block,
    material_type: MaterialType,
    position: [i32; 3],
    chunk_offset: [i32; 3],
)
    requires
        a.is_block(material_type, position, chunk_offset),
        b.is_block(material_type, position, chunk_offset),
    ensures
        a == b,
{
    assert forall|k: int| 0 <= k < 6 implies a.quads[k] == b.quads[k] by {
        let p = a.quads[k];
        let q = b.quads[k];
        assert forall|j: int| 0 <= j < 4 implies p.vertices[j] == q.vertices[j] by {}
        assert(p.vertices =~= q.vertices);
    }
    assert(a.quads =~= b.quads);
}

/// Generation is a function of the offset of the chunk and of its height
/// map: two grids generated from the same two hold the same blocks.
pub proof fn lemma_generation_deterministic(
    a: Blocks,
    b: Blocks,
    offset: [i32; 3],
    heights: HeightMap,
    x: int,
    y: int,
    z: int,
)
    requires
        grid_generated(a, offset, heights),
        grid_generated(b, offset, heights),
        in_chunk(x, y, z),
    ensures
        block_at(a, x, y, z) == block_at(b, x, y, z),
        block_at(a, x, y, z).material_type == cell_material(
            y,
            heights.spec_get(x, z) as int,
        ),
{
    let la = a@[y];
    let lb = b@[y];
    assert(layer_generated(la, y, offset, heights));
    assert(layer_generated(lb, y, offset, heights));
    let material = cell_material(y, heights.spec_get(x, z) as int);
    let position = [x as i32, y as i32, z as i32];
    assert(la@[x]@[z].is_block(material, position, offset));
    assert(lb@[x]@[z].is_block(material, position, offset));
    lemma_block_determined(la@[x]@[z], lb@[x]@[z], material, position, offset);
}

impl Terrain {
    /// The slots of the free list and the slots that hold a place of the
    /// window are two parts of the slots: no slot is in both, every slot is
    /// in one, none is twice in the free list, and none holds two places.
    pub proof fn lemma_slot_partition(self)
        requires
            self.wf(),
        ensures
            forall|s: int|
                0 <= s < CHUNKS_ARRAY_SIZE ==> (#[trigger] self.is_free(s) || self.is_mapped(s)),
            forall|s: int|
                0 <= s < CHUNKS_ARRAY_SIZE ==> !(#[trigger] self.is_free(s) && self.is_mapped(s)),
            forall|k: int, l: int|
                0 <= k < self.free_chunk_indices@.len() && 0 <= l < self.free_chunk_indices@.len()
                    && #[trigger] self.free_chunk_indices@[k]
                    == #[trigger] self.free_chunk_indices@[l] ==> k == l,
            forall|i: int, j: int|
                0 <= i < CHUNKS_ARRAY_SIZE && 0 <= j < CHUNKS_ARRAY_SIZE
                    && #[trigger] self.chunk_indices@[i] is Some && self.chunk_indices@[i]
                    == #[trigger] self.chunk_indices@[j] ==> i == j,
    {
        assert forall|i: int, j: int|
            0 <= i < CHUNKS_ARRAY_SIZE && 0 <= j < CHUNKS_ARRAY_SIZE
                && #[trigger] self.chunk_indices@[i] is Some && self.chunk_indices@[i]
                == #[trigger] self.chunk_indices@[j] implies i == j by {
            self.lemma_places_differ(i, j);
        }
        assert forall|k: int, l: int|
            0 <= k < self.free_chunk_indices@.len() && 0 <= l < self.free_chunk_indices@.len()
                && #[trigger] self.free_chunk_indices@[k] == #[trigger] self.free_chunk_indices@[l] implies k
            == l by {
            if k < l {
                assert(self.free_chunk_indices@[k] != self.free_chunk_indices@[l]);
            }
            if l < k {
                assert(self.free_chunk_indices@[l] != self.free_chunk_indices@[k]);
            }
        }
    }

    /// The chunk of every place of the window that holds one lies in the
    /// window: its offset, counted from the corner of the window, is at
    /// least 0 and less than the size of the window along x and along z.
    /// It is the offset of that very place.
    pub proof fn lemma_window_containment(self, i: int)
        requires
            self.wf(),
            0 <= i < CHUNKS_ARRAY_SIZE,
            self.chunk_indices@[i] is Some,
        ensures
            ({
                let offset = self.chunks@[self.chunk_indices@[i]->0 as int].offset;
                &&& 0 <= offset[0] - self.chunks_origin[0] < CHUNKS_VIEW_SIZE
                &&& 0 <= offset[2] - self.chunks_origin[2] < CHUNKS_VIEW_SIZE
                &&& offset[1] == 0
                &&& self.spec_chunk_in_bounds(offset[0] as int, offset[2] as int)
                &&& self.spec_chunk_world_index(offset[0] as int, offset[2] as int) == i
            }),
    {
        assert(CHUNKS_VIEW_SIZE == 2 && CHUNKS_ARRAY_SIZE == 4);
        let s = self.chunk_indices@[i]->0;
        assert(self.chunks@[s as int].offset == self.spec_chunk_offset(i));
    }

    /// The first load of a new terrain, with a height map for every place,
    /// fills the whole window: place `i` is held by slot `i`, whose chunk
    /// lies `i % CHUNKS_VIEW_SIZE` chunks along x and `i / CHUNKS_VIEW_SIZE`
    /// chunks along z from the corner of the window, and no slot is left
    /// free.
    ///
    /// `self` is the terrain as [`Terrain::new`] makes it and `after` the
    /// terrain as [`Terrain::load_empty_chunks`] leaves it.
    pub proof fn lemma_first_load(self, after: Terrain, heights: Seq<Option<HeightMap>>)
        requires
            self.wf(),
            self.free_chunk_indices@ == Seq::new(CHUNKS_ARRAY_SIZE as nat, |s: int| s as usize),
            forall|i: int| 0 <= i < CHUNKS_ARRAY_SIZE ==> #[trigger] self.chunk_indices@[i] is None,
            after.wf(),
            after.loaded_from(self, heights, CHUNKS_ARRAY_SIZE as int),
            self.all_to_fill(heights),
        ensures
            after.free_chunk_indices@.len() == 0,
            after.chunks_origin == self.chunks_origin,
            after.center_offset == self.center_offset,
            forall|i: int|
                0 <= i < CHUNKS_ARRAY_SIZE ==> {
                    let offset = after.chunks@[i].offset;
                    &&& #[trigger] after.chunk_indices@[i] == Some(i as usize)
                    &&& offset[0] - after.chunks_origin[0] == i % (CHUNKS_VIEW_SIZE as int)
                    &&& offset[1] == 0
                    &&& offset[2] - after.chunks_origin[2] == i / (CHUNKS_VIEW_SIZE as int)
                },
    {
        assert(CHUNKS_VIEW_SIZE == 2 && CHUNKS_ARRAY_SIZE == 4);
        self.lemma_loaded_places(after, heights);
        assert forall|i: int| 0 <= i < CHUNKS_ARRAY_SIZE implies {
            let offset = after.chunks@[i].offset;
            &&& #[trigger] after.chunk_indices@[i] == Some(i as usize)
            &&& offset[0] - after.chunks_origin[0] == i % (CHUNKS_VIEW_SIZE as int)
            &&& offset[1] == 0
            &&& offset[2] - after.chunks_origin[2] == i / (CHUNKS_VIEW_SIZE as int)
        } by {
            assert forall|j: int| 0 <= j < i implies self.to_fill(heights, j) by {
                assert(self.chunk_indices@[j] is None);
            }
            self.lemma_fill_count_all(heights, i);
            assert(self.chunk_indices@[i] is None);
            assert(self.to_fill(heights, i));
            let s = self.free_chunk_indices@[self.fill_count(heights, i)];
            assert(s == i);
            assert(after.chunk_indices@[i] == Some(s));
            after.lemma_window_containment(i);
            assert(after.chunks@[i].offset == after.spec_chunk_offset(i));
        }
    }

    /// A move of a full window followed by a load with a height map for
    /// every empty place leaves the window full again and no slot free.
    /// The slots that the move set free, and no others, take the places
    /// that the move left empty, in the order of the places; the chunks
    /// that the window still covered stay in their slots.
    ///
    /// `self` is the terrain before the move, `moved` the terrain as
    /// [`Terrain::update`] leaves it when the corner of the window goes to
    /// `(nx, nz)`, and `after` the terrain as
    /// [`Terrain::load_empty_chunks`] leaves it.
    pub proof fn lemma_move_then_load(
        self,
        moved: Terrain,
        after: Terrain,
        heights: Seq<Option<HeightMap>>,
        nx: int,
        nz: int,
    )
        requires
            self.wf(),
            self.window_full(),
            moved.wf(),
            moved.chunks@ == self.chunks@,
            moved.chunk_indices@ == Seq::new(
                CHUNKS_ARRAY_SIZE as nat,
                |j: int| self.kept_at(nx, nz, j),
            ),
            moved.free_chunk_indices@ == self.free_chunk_indices@ + self.released(
                nx,
                nz,
                CHUNKS_ARRAY_SIZE as int,
            ),
            after.wf(),
            after.loaded_from(moved, heights, CHUNKS_ARRAY_SIZE as int),
            0 <= moved.fill_count(heights, CHUNKS_ARRAY_SIZE as int)
                <= moved.free_chunk_indices@.len(),
            moved.all_to_fill(heights),
        ensures
            after.window_full(),
            after.free_chunk_indices@.len() == 0,
            moved.free_chunk_indices@ == self.released(nx, nz, CHUNKS_ARRAY_SIZE as int),
            moved.fill_count(heights, CHUNKS_ARRAY_SIZE as int) == self.released(
                nx,
                nz,
                CHUNKS_ARRAY_SIZE as int,
            ).len(),
            forall|i: int|
                0 <= i < CHUNKS_ARRAY_SIZE && self.kept_at(nx, nz, i) is Some ==> {
                    &&& #[trigger] after.chunk_indices@[i] == self.kept_at(nx, nz, i)
                    &&& after.chunks@[after.chunk_indices@[i]->0 as int].blocks
                        == self.chunks@[after.chunk_indices@[i]->0 as int].blocks
                },
            forall|i: int|
                0 <= i < CHUNKS_ARRAY_SIZE && self.kept_at(nx, nz, i) is None ==> {
                    let s = self.released(nx, nz, CHUNKS_ARRAY_SIZE as int)[moved.fill_count(
                        heights,
                        i,
                    )];
                    &&& #[trigger] after.chunk_indices@[i] == Some(s)
                    &&& after.chunks@[s as int].offset == moved.spec_chunk_offset(i)
                    &&& grid_generated(
                        after.chunks@[s as int].blocks,
                        moved.spec_chunk_offset(i),
                        heights[i]->0,
                    )
                },
    {
        let n = CHUNKS_ARRAY_SIZE as int;
        self.lemma_full_window_has_no_free_slot();
        assert(moved.free_chunk_indices@ =~= self.released(nx, nz, n));
        moved.lemma_loaded_places(after, heights);
        assert(after.free_chunk_indices@ == moved.free_chunk_indices@.skip(
            moved.fill_count(heights, n),
        ));
        assert forall|i: int| 0 <= i < n && self.kept_at(nx, nz, i) is Some implies {
            &&& #[trigger] after.chunk_indices@[i] == self.kept_at(nx, nz, i)
            &&& after.chunks@[after.chunk_indices@[i]->0 as int].blocks
                == self.chunks@[after.chunk_indices@[i]->0 as int].blocks
        } by {
            assert(moved.chunk_indices@[i] == self.kept_at(nx, nz, i));
            assert(after.chunk_indices@[i] == moved.chunk_indices@[i]);
            let t = moved.chunk_indices@[i]->0;
            assert(moved.chunk_indices@[i] == Some(t));
            assert(t < CHUNKS_ARRAY_SIZE);
            assert(moved.is_mapped(t as int));
            assert(after.chunks@[t as int].blocks == moved.chunks@[t as int].blocks);
        }
        assert forall|i: int| 0 <= i < n && self.kept_at(nx, nz, i) is None implies {
            let s = self.released(nx, nz, n)[moved.fill_count(heights, i)];
            &&& #[trigger] after.chunk_indices@[i] == Some(s)
            &&& after.chunks@[s as int].offset == moved.spec_chunk_offset(i)
            &&& grid_generated(
                after.chunks@[s as int].blocks,
                moved.spec_chunk_offset(i),
                heights[i]->0,
            )
        } by {
            assert(moved.chunk_indices@[i] == self.kept_at(nx, nz, i));
            assert(moved.chunk_indices@[i] is None);
            assert(moved.to_fill(heights, i));
            let s = moved.free_chunk_indices@[moved.fill_count(heights, i)];
            assert(after.chunk_indices@[i] == Some(s));
        }
    }

    /// A step of a full window by one chunk along x keeps every chunk but
    /// those of its first column: each place but those of the last column
    /// takes over the slot of the place to its right, the places of the
    /// last column are left empty, and the slots of the first column are
    /// set free, one for each row, in the order of the rows.
    pub proof fn lemma_step_along_x(self)
        requires
            self.wf(),
            self.window_full(),
        ensures
            ({
                let nx = self.chunks_origin[0] + 1;
                let nz = self.chunks_origin[2] as int;
                let view = CHUNKS_VIEW_SIZE as int;
                let gone = self.released(nx, nz, CHUNKS_ARRAY_SIZE as int);
                &&& forall|j: int|
                    0 <= j < CHUNKS_ARRAY_SIZE ==> #[trigger] self.kept_at(nx, nz, j) == (if j
                        % view < view - 1 {
                        self.chunk_indices@[j + 1]
                    } else {
                        None
                    })
                &&& gone.len() == view
                &&& forall|r: int|
                    0 <= r < view ==> Some(#[trigger] gone[r]) == self.chunk_indices@[r * view]
            }),
    {
        assert(CHUNKS_VIEW_SIZE == 2 && CHUNKS_ARRAY_SIZE == 4);
        let nx = self.chunks_origin[0] + 1;
        let nz = self.chunks_origin[2] as int;
        assert(self.chunk_indices@[0] is Some && self.chunk_indices@[1] is Some
            && self.chunk_indices@[2] is Some && self.chunk_indices@[3] is Some);
        let r0 = self.released(nx, nz, 0);
        let r1 = self.released(nx, nz, 1);
        let r2 = self.released(nx, nz, 2);
        let r3 = self.released(nx, nz, 3);
        let r4 = self.released(nx, nz, 4);
        assert(r0.len() == 0);
        assert(r1 == r0.push(self.chunk_indices@[0]->0));
        assert(r2 == r1);
        assert(r3 == r2.push(self.chunk_indices@[2]->0));
        assert(r4 == r3);
        assert(r4.len() == 2);
        assert(r4[0] == self.chunk_indices@[0]->0);
        assert(r4[1] == self.chunk_indices@[2]->0);
        assert forall|r: int| 0 <= r < 2 implies Some(#[trigger] r4[r]) == self.chunk_indices@[r
            * 2] by {
            if r == 0 {
            } else {
                assert(r == 1);
            }
        }
    }

    /// The mesh that loading has given the chunk in slot `s` is closed:
    /// each of its indices names one of its vertices, and the indices come
    /// in whole triangles and in whole quads.
    pub proof fn lemma_slot_mesh_closed(self, s: int)
        requires
            self.slot_meshed(s),
        ensures
            self.chunks@[s].mesh.closed(),
            self.chunks@[s].mesh.verts@.len() % 4 == 0,
            self.chunks@[s].mesh.verts@.len() <= MAX_VERTICES,
    {
        let quads = self.slot_quads(s);
        if 4 * quads.len() <= MAX_VERTICES {
            lemma_quad_indices_closed(0, quads.len() as int);
        }
    }

    /// Whether the world holds a solid block at `(wx, wy, wz)`: the chunk
    /// that the position belongs to is loaded, and its block there is not
    /// air.
    pub open spec fn solid_at(self, wx: int, wy: int, wz: int) -> bool {
        match self.spec_chunk_at_offset(chunk_coord(wx), chunk_coord(wz)) {
            Some(slot) => {
                &&& 0 <= wy < CHUNK_Y_SIZE
                &&& block_at(
                    self.chunks@[slot as int].blocks,
                    local_coord(wx),
                    wy,
                    local_coord(wz),
                ).material_type != MaterialType::AIR
            },
            None => false,
        }
    }

    /// For a loaded chunk, whether a place next to one of its blocks is
    /// taken is a matter of the world alone: it is taken if and only if the
    /// world holds a solid block there, in this chunk or in a loaded
    /// neighbour.
    pub proof fn lemma_neighbor_is_world_block(self, i: int, nx: int, ny: int, nz: int)
        requires
            self.wf(),
            0 <= i < CHUNKS_ARRAY_SIZE,
            self.chunk_indices@[i] is Some,
            -1 <= nx <= CHUNK_AREA,
            -1 <= nz <= CHUNK_AREA,
        ensures
            ({
                let chunk = self.chunks@[self.chunk_indices@[i]->0 as int];
                self.spec_neighbor_exists(nx, ny, nz, chunk.blocks, chunk.offset) == self.solid_at(
                    nx + chunk.offset[0] * CHUNK_AREA,
                    ny,
                    nz + chunk.offset[2] * CHUNK_AREA,
                )
            }),
    {
        assert(CHUNKS_VIEW_SIZE == 2 && CHUNKS_ARRAY_SIZE == 4 && CHUNK_AREA == 16);
        let s = self.chunk_indices@[i]->0;
        let chunk = self.chunks@[s as int];
        self.lemma_window_containment(i);
        let wx = nx + chunk.offset[0] * 16;
        let wz = nz + chunk.offset[2] * 16;
        if in_chunk(nx, ny, nz) {
            assert(chunk_coord(wx) == chunk.offset[0]);
            assert(chunk_coord(wz) == chunk.offset[2]);
            assert(local_coord(wx) == nx);
            assert(local_coord(wz) == nz);
        } else {
            assert(0 <= local_coord(wx) < 16);
            assert(0 <= local_coord(wz) < 16);
        }
    }

    /// Two solid blocks that touch, each in a loaded chunk, hide the face
    /// between them from both sides.
    ///
    /// The first block is at `(x1, y1, z1)` of the chunk at place `i`, the
    /// second at `(x2, y2, z2)` of the chunk at place `j`, which may be the
    /// same chunk. The face `k1` of the first looks at the second, and the
    /// face `k2` of the second looks back.
    pub proof fn lemma_shared_face_hidden(
        self,
        i: int,
        x1: int,
        y1: int,
        z1: int,
        k1: int,
        j: int,
        x2: int,
        y2: int,
        z2: int,
        k2: int,
    )
        requires
            self.wf(),
            0 <= i < CHUNKS_ARRAY_SIZE,
            0 <= j < CHUNKS_ARRAY_SIZE,
            self.chunk_indices@[i] is Some,
            self.chunk_indices@[j] is Some,
            in_chunk(x1, y1, z1),
            in_chunk(x2, y2, z2),
            0 <= k1 < 6,
            0 <= k2 < 6,
            ({
                let a = self.chunks@[self.chunk_indices@[i]->0 as int];
                let b = self.chunks@[self.chunk_indices@[j]->0 as int];
                let first = block_at(a.blocks, x1, y1, z1);
                let second = block_at(b.blocks, x2, y2, z2);
                let d = first.quads[k1].side.spec_to_vec();
                &&& first.material_type != MaterialType::AIR
                &&& second.material_type != MaterialType::AIR
                &&& second.quads[k2].side == first.quads[k1].side.opposite()
                &&& x1 + a.offset[0] * CHUNK_AREA + d[0] == x2 + b.offset[0] * CHUNK_AREA
                &&& y1 + d[1] == y2
                &&& z1 + a.offset[2] * CHUNK_AREA + d[2] == z2 + b.offset[2] * CHUNK_AREA
            }),
        ensures
            ({
                let a = self.chunks@[self.chunk_indices@[i]->0 as int];
                let b = self.chunks@[self.chunk_indices@[j]->0 as int];
                &&& !face_visible(Some(&self), a.blocks, a.offset, x1, y1, z1, k1)
                &&& !face_visible(Some(&self), b.blocks, b.offset, x2, y2, z2, k2)
            }),
    {
        assert(CHUNKS_VIEW_SIZE == 2 && CHUNKS_ARRAY_SIZE == 4 && CHUNK_AREA == 16);
        let a = self.chunks@[self.chunk_indices@[i]->0 as int];
        let b = self.chunks@[self.chunk_indices@[j]->0 as int];
        let first = block_at(a.blocks, x1, y1, z1);
        let second = block_at(b.blocks, x2, y2, z2);
        let d = first.quads[k1].side.spec_to_vec();
        let e = second.quads[k2].side.spec_to_vec();
        assert(e[0] == -d[0] && e[1] == -d[1] && e[2] == -d[2]);
        self.lemma_window_containment(i);
        self.lemma_window_containment(j);
        self.lemma_neighbor_is_world_block(i, x1 + d[0], y1 + d[1], z1 + d[2]);
        self.lemma_neighbor_is_world_block(j, x2 + e[0], y2 + e[1], z2 + e[2]);
        let wx1 = x1 + a.offset[0] * 16;
        let wz1 = z1 + a.offset[2] * 16;
        let wx2 = x2 + b.offset[0] * 16;
        let wz2 = z2 + b.offset[2] * 16;
        assert(chunk_coord(wx1) == a.offset[0] && local_coord(wx1) == x1);
        assert(chunk_coord(wz1) == a.offset[2] && local_coord(wz1) == z1);
        assert(chunk_coord(wx2) == b.offset[0] && local_coord(wx2) == x2);
        assert(chunk_coord(wz2) == b.offset[2] && local_coord(wz2) == z2);
        assert(self.solid_at(wx1, y1, wz1));
        assert(self.solid_at(wx2, y2, wz2));
    }

    /// The only block of a chunk shows each face that looks into its own
    /// chunk, out of the world, or at a chunk that is not loaded.
    pub proof fn lemma_lone_block_face_visible(
        self,
        blocks: Blocks,
        chunk_offset: [i32; 3],
        x: int,
        y: int,
        z: int,
        k: int,
    )
        requires
            lone_block(blocks, x, y, z),
            0 <= k < 6,
            ({
                let d = block_at(blocks, x, y, z).quads[k].side.spec_to_vec();
                ||| in_chunk(x + d[0], y + d[1], z + d[2])
                ||| y + d[1] < 0
                ||| y + d[1] >= CHUNK_Y_SIZE
                ||| self.spec_chunk_at_offset(
                    chunk_coord(x + d[0] + chunk_offset[0] * CHUNK_AREA),
                    chunk_coord(z + d[2] + chunk_offset[2] * CHUNK_AREA),
                ) is None
            }),
        ensures
            face_visible(Some(&self), blocks, chunk_offset, x, y, z, k),
    {
        let d = block_at(blocks, x, y, z).quads[k].side.spec_to_vec();
        assert(d[0] != 0 || d[1] != 0 || d[2] != 0);
    }

    /// A solid block of a loaded chunk shows each face that looks at air:
    /// at a block of air of its own chunk or of a loaded neighbour, at a
    /// chunk that is not loaded, or out of the world.
    pub proof fn lemma_open_face_visible(self, i: int, x: int, y: int, z: int, k: int)
        requires
            self.wf(),
            0 <= i < CHUNKS_ARRAY_SIZE,
            self.chunk_indices@[i] is Some,
            in_chunk(x, y, z),
            0 <= k < 6,
            ({
                let a = self.chunks@[self.chunk_indices@[i]->0 as int];
                let d = block_at(a.blocks, x, y, z).quads[k].side.spec_to_vec();
                !self.solid_at(
                    x + a.offset[0] * CHUNK_AREA + d[0],
                    y + d[1],
                    z + a.offset[2] * CHUNK_AREA + d[2],
                )
            }),
        ensures
            ({
                let a = self.chunks@[self.chunk_indices@[i]->0 as int];
                face_visible(Some(&self), a.blocks, a.offset, x, y, z, k)
            }),
    {
        let a = self.chunks@[self.chunk_indices@[i]->0 as int];
        let d = block_at(a.blocks, x, y, z).quads[k].side.spec_to_vec();
        self.lemma_neighbor_is_world_block(i, x + d[0], y + d[1], z + d[2]);
    }
}

} // verus!
