//! The terrain: a window of chunks around the viewpoint.
use vstd::prelude::*;
use std::collections::VecDeque;
use crate::render::atlas::MaterialType;
use crate::render::mesh::{
    all_quads, lemma_quad_indices_closed, quad_indices, quad_verts, Mesh, MeshError, MAX_VERTICES,
};
use crate::render::vertex::BlockVertex;
use self::chunk::{
    block_at, in_chunk, local_pos_to_world, pos_in_chunk_bounds, Blocks, Chunk, CHUNK_AREA,
    CHUNK_Y_SIZE,
};

pub mod block;
pub mod chunk;
pub mod laws;
pub mod slots;
pub mod streaming;
pub mod validity;

verus! {

/// The level up to which water fills what the land leaves free.
pub const LAND_LEVEL: usize = 9;

/// Width and depth of the window, in chunks.
pub const CHUNKS_VIEW_SIZE: usize = 2;

/// Number of chunks in the window, and of slots that hold them.
pub const CHUNKS_ARRAY_SIZE: usize = CHUNKS_VIEW_SIZE * CHUNKS_VIEW_SIZE;

/// The chunks around the viewpoint.
///
/// The window is a square of `CHUNKS_VIEW_SIZE` chunks a side whose corner
/// is `chunks_origin`. Its places are numbered row by row, and
/// `chunk_indices` says for each place which slot of `chunks` holds its
/// chunk, if any does. The slots that hold none wait in
/// `free_chunk_indices`.
pub struct Terrain {
    pub chunks: Vec<Chunk>,
    pub chunk_indices: Vec<Option<usize>>,
    pub free_chunk_indices: VecDeque<usize>,
    pub updated_indices: Vec<bool>,
    pub center_offset: [i32; 3],
    pub chunks_origin: [i32; 3],
}

/// The chunk that holds the world coordinate `w`, along one axis.
pub open spec fn chunk_coord(w: int) -> int {
    w / (CHUNK_AREA as int)
}

/// The place inside its chunk of the world coordinate `w`, along one axis.
pub open spec fn local_coord(w: int) -> int {
    w % (CHUNK_AREA as int)
}

/// The offset of the chunk that holds a world position. Chunks are not
/// stacked, so its `y` is 0.
pub open spec fn spec_world_pos_to_chunk_offset(world_pos: [i64; 3]) -> [i64; 3] {
    [chunk_coord(world_pos[0] as int) as i64, 0i64, chunk_coord(world_pos[2] as int) as i64]
}

fn floor_div_area(w: i64) -> (c: i64)
    ensures
        c == chunk_coord(w as int),
        0 <= w - c * CHUNK_AREA < CHUNK_AREA,
{
    if w >= 0 {
        w / (CHUNK_AREA as i64)
    } else {
        let m: i64 = -(w + 1);
        -(m / (CHUNK_AREA as i64)) - 1
    }
}

impl Terrain {
    /// The offset of the chunk at place `i` of the window.
    pub open spec fn spec_chunk_offset(self, i: int) -> [i32; 3] {
        [
            (self.chunks_origin[0] + i % (CHUNKS_VIEW_SIZE as int)) as i32,
            self.chunks_origin[1],
            (self.chunks_origin[2] + i / (CHUNKS_VIEW_SIZE as int)) as i32,
        ]
    }

    /// Whether the chunk at `(cx, cz)` lies in the window.
    pub open spec fn spec_chunk_in_bounds(self, cx: int, cz: int) -> bool {
        &&& 0 <= cx - self.chunks_origin[0] < CHUNKS_VIEW_SIZE
        &&& 0 <= cz - self.chunks_origin[2] < CHUNKS_VIEW_SIZE
    }

    /// The place in the window of the chunk at `(cx, cz)`.
    pub open spec fn spec_chunk_world_index(self, cx: int, cz: int) -> int {
        (cz - self.chunks_origin[2]) * CHUNKS_VIEW_SIZE + (cx - self.chunks_origin[0])
    }

    /// The slot that holds the chunk at `(cx, cz)`, if it is loaded.
    pub open spec fn spec_chunk_at_offset(self, cx: int, cz: int) -> Option<usize> {
        if self.spec_chunk_in_bounds(cx, cz) {
            self.chunk_indices@[self.spec_chunk_world_index(cx, cz)]
        } else {
            None
        }
    }

    /// Whether slot `s` waits in the free list.
    pub open spec fn is_free(self, s: int) -> bool {
        exists|k: int| 0 <= k < self.free_chunk_indices@.len() && #[trigger] self.free_chunk_indices@[k] == s
    }

    /// Whether some place of the window is held by slot `s`.
    pub open spec fn is_mapped(self, s: int) -> bool {
        exists|i: int|
            0 <= i < CHUNKS_ARRAY_SIZE && #[trigger] self.chunk_indices@[i] == Some(s as usize)
    }

    /// Whether two terrains hold the same chunks in the same slots at the
    /// same places.
    pub open spec fn same_as(self, other: Terrain) -> bool {
        &&& self.chunks@ == other.chunks@
        &&& self.chunk_indices@ == other.chunk_indices@
        &&& self.free_chunk_indices@ == other.free_chunk_indices@
        &&& self.updated_indices@ == other.updated_indices@
        &&& self.center_offset == other.center_offset
        &&& self.chunks_origin == other.chunks_origin
    }

    /// The invariant of the terrain.
    ///
    /// Every slot is either free or holds the chunk of exactly one place of
    /// the window, and then its chunk has the offset of that place.
    pub open spec fn wf(self) -> bool {
        &&& self.chunks@.len() == CHUNKS_ARRAY_SIZE
        &&& self.chunk_indices@.len() == CHUNKS_ARRAY_SIZE
        &&& self.updated_indices@.len() == CHUNKS_ARRAY_SIZE
        &&& forall|s: int| 0 <= s < CHUNKS_ARRAY_SIZE ==> (#[trigger] self.chunks@[s]).wf()
        &&& self.chunks_origin[0] == self.center_offset[0] - CHUNKS_VIEW_SIZE / 2
        &&& self.chunks_origin[1] == 0
        &&& self.center_offset[1] == 0
        &&& self.chunks_origin[2] == self.center_offset[2] - CHUNKS_VIEW_SIZE / 2
        &&& self.chunks_origin[0] + CHUNKS_VIEW_SIZE <= i32::MAX
        &&& self.chunks_origin[2] + CHUNKS_VIEW_SIZE <= i32::MAX
        &&& forall|i: int|
            0 <= i < CHUNKS_ARRAY_SIZE ==> (#[trigger] self.chunk_indices@[i] matches Some(s) ==> {
                &&& s < CHUNKS_ARRAY_SIZE
                &&& self.chunks@[s as int].offset == self.spec_chunk_offset(i)
            })
        &&& forall|k: int|
            0 <= k < self.free_chunk_indices@.len() ==> #[trigger] self.free_chunk_indices@[k]
                < CHUNKS_ARRAY_SIZE
        &&& forall|k: int, l: int|
            0 <= k < l < self.free_chunk_indices@.len() ==> #[trigger] self.free_chunk_indices@[k]
                != #[trigger] self.free_chunk_indices@[l]
        &&& forall|s: int|
            0 <= s < CHUNKS_ARRAY_SIZE ==> (#[trigger] self.is_free(s) <==> !self.is_mapped(s))
    }

    /// Whether the place next to a block is taken by a solid block, so that
    /// the face between them cannot be seen.
    ///
    /// `(nx, ny, nz)` is the place, counted in the chunk at `chunk_offset`
    /// whose grid is `blocks`; it may lie one step outside. Inside the chunk
    /// the grid decides. Above and below the world there is nothing.
    /// Otherwise the place belongs to a neighbouring chunk: if that chunk is
    /// loaded its block decides, and if it is not there is nothing. Chunks
    /// are not stacked, so the level of the place is `ny` in every chunk.
    pub open spec fn spec_neighbor_exists(
        self,
        nx: int,
        ny: int,
        nz: int,
        blocks: Blocks,
        chunk_offset: [i32; 3],
    ) -> bool {
        if in_chunk(nx, ny, nz) {
            block_at(blocks, nx, ny, nz).material_type != MaterialType::AIR
        } else if ny < 0 || ny >= CHUNK_Y_SIZE {
            false
        } else {
            let wx = nx + chunk_offset[0] * CHUNK_AREA;
            let wz = nz + chunk_offset[2] * CHUNK_AREA;
            match self.spec_chunk_at_offset(chunk_coord(wx), chunk_coord(wz)) {
                Some(slot) => block_at(
                    self.chunks@[slot as int].blocks,
                    local_coord(wx),
                    ny,
                    local_coord(wz),
                ).material_type != MaterialType::AIR,
                None => false,
            }
        }
    }

    /// A terrain around the chunk at the origin of the world, with no
    /// chunk loaded: every slot is free.
    pub fn new() -> (terrain: Self)
        ensures
            terrain.wf(),
            terrain.center_offset == [0i32, 0i32, 0i32],
            terrain.chunks_origin == [
                (0 - CHUNKS_VIEW_SIZE / 2) as i32,
                0i32,
                (0 - CHUNKS_VIEW_SIZE / 2) as i32,
            ],
            terrain.free_chunk_indices@ == Seq::new(CHUNKS_ARRAY_SIZE as nat, |s: int| s as usize),
            forall|i: int|
                0 <= i < CHUNKS_ARRAY_SIZE ==> #[trigger] terrain.chunk_indices@[i] is None,
            forall|s: int| 0 <= s < CHUNKS_ARRAY_SIZE ==> !#[trigger] terrain.updated_indices@[s],
            forall|s: int|
                0 <= s < CHUNKS_ARRAY_SIZE ==> (#[trigger] terrain.chunks@[s]).is_initial(
                    [0i32, 0i32, 0i32],
                ),
    {
        let mut chunks: Vec<Chunk> = Vec::new();
        let mut chunk_indices: Vec<Option<usize>> = Vec::new();
        let mut updated_indices: Vec<bool> = Vec::new();
        let mut free_chunk_indices: VecDeque<usize> = VecDeque::new();
        let mut x: usize = 0;
        while x < CHUNKS_ARRAY_SIZE
            invariant
                x <= CHUNKS_ARRAY_SIZE,
                chunks@.len() == x,
                chunk_indices@.len() == x,
                updated_indices@.len() == x,
                free_chunk_indices@ == Seq::new(x as nat, |s: int| s as usize),
                forall|i: int| 0 <= i < x ==> #[trigger] chunk_indices@[i] is None,
                forall|s: int| 0 <= s < x ==> !#[trigger] updated_indices@[s],
                forall|s: int| 0 <= s < x ==> (#[trigger] chunks@[s]).is_initial([0i32, 0i32, 0i32]),
            decreases CHUNKS_ARRAY_SIZE - x,
        {
            chunks.push(Chunk::new([0, 0, 0]));
            chunk_indices.push(None);
            updated_indices.push(false);
            free_chunk_indices.push_back(x);
            assert(free_chunk_indices@ =~= Seq::new((x + 1) as nat, |s: int| s as usize));
            x += 1;
        }
        let center_offset: [i32; 3] = [0, 0, 0];
        let chunks_origin: [i32; 3] = [
            center_offset[0] - CHUNKS_VIEW_SIZE as i32 / 2,
            center_offset[1],
            center_offset[2] - CHUNKS_VIEW_SIZE as i32 / 2,
        ];
        let terrain = Self {
            chunks,
            chunk_indices,
            free_chunk_indices,
            updated_indices,
            center_offset,
            chunks_origin,
        };
        proof {
            assert forall|s: int| 0 <= s < CHUNKS_ARRAY_SIZE implies (#[trigger] terrain.is_free(s)
                <==> !terrain.is_mapped(s)) by {
                assert(terrain.free_chunk_indices@[s] == s);
            }
        }
        terrain
    }

    /// The offset of the chunk that holds a world position.
    pub fn world_pos_to_chunk_offset(world_pos: [i64; 3]) -> (chunk_offset: [i64; 3])
        ensures
            chunk_offset == spec_world_pos_to_chunk_offset(world_pos),
    {
        [floor_div_area(world_pos[0]), 0, floor_div_area(world_pos[2])]
    }

    /// The offset of the chunk at place `i` of the window.
    pub fn get_chunk_offset(&self, i: usize) -> (chunk_offset: [i32; 3])
        requires
            self.wf(),
            i < CHUNKS_ARRAY_SIZE,
        ensures
            chunk_offset == self.spec_chunk_offset(i as int),
    {
        [
            self.chunks_origin[0] + (i % CHUNKS_VIEW_SIZE) as i32,
            self.chunks_origin[1],
            self.chunks_origin[2] + (i / CHUNKS_VIEW_SIZE) as i32,
        ]
    }

    /// Whether the chunk at `chunk_offset` lies in the window.
    pub fn chunk_in_bounds(&self, chunk_offset: [i64; 3]) -> (inside: bool)
        ensures
            inside == self.spec_chunk_in_bounds(chunk_offset[0] as int, chunk_offset[2] as int),
    {
        let ox: i64 = self.chunks_origin[0] as i64;
        let oz: i64 = self.chunks_origin[2] as i64;
        if chunk_offset[0] >= ox && chunk_offset[2] >= oz && chunk_offset[0] < ox
            + CHUNKS_VIEW_SIZE as i64 && chunk_offset[2] < oz + CHUNKS_VIEW_SIZE as i64 {
            return true;
        }
        return false;
    }

    /// The place in the window of the chunk at `chunk_offset`.
    pub fn get_chunk_world_index(&self, chunk_offset: [i64; 3]) -> (index: usize)
        requires
            self.spec_chunk_in_bounds(chunk_offset[0] as int, chunk_offset[2] as int),
        ensures
            index == self.spec_chunk_world_index(chunk_offset[0] as int, chunk_offset[2] as int),
            index < CHUNKS_ARRAY_SIZE,
    {
        let px: i64 = chunk_offset[0] - self.chunks_origin[0] as i64;
        let pz: i64 = chunk_offset[2] - self.chunks_origin[2] as i64;
        (pz as usize * CHUNKS_VIEW_SIZE) + px as usize
    }

    /// The slot that holds the chunk at `chunk_offset`, if that chunk is
    /// loaded.
    pub fn get_chunk_at_offset(&self, chunk_offset: [i64; 3]) -> (slot: Option<usize>)
        requires
            self.wf(),
        ensures
            slot == self.spec_chunk_at_offset(chunk_offset[0] as int, chunk_offset[2] as int),
    {
        if self.chunk_in_bounds(chunk_offset) {
            let index = self.get_chunk_world_index(chunk_offset);
            self.chunk_indices[index]
        } else {
            None
        }
    }

    /// The mesh of the faces of a chunk that can be seen from where it
    /// stands in this terrain.
    ///
    /// `blocks` is the grid of the chunk at `offset`. A face at the border
    /// of the chunk is hidden by a solid block of the neighbouring chunk if
    /// that chunk is loaded, and can be seen if it is not.
    pub fn update_mesh(&self, blocks: &Blocks, offset: &[i32; 3]) -> (mesh: Result<
        Mesh<BlockVertex>,
        MeshError,
    >)
        requires
            self.wf(),
            chunk::grid_wf(*blocks),
        ensures
            mesh is Ok <==> 4 * all_quads(Some(self), *blocks, *offset).len() <= MAX_VERTICES,
            mesh matches Ok(m) ==> {
                &&& m.verts@ == quad_verts(all_quads(Some(self), *blocks, *offset))
                &&& m.indices@ == quad_indices(
                    0,
                    all_quads(Some(self), *blocks, *offset).len() as int,
                )
                &&& m.closed()
            },
    {
        match Mesh::build(Some(self), blocks, offset, 0) {
            Some(mesh) => {
                proof {
                    lemma_quad_indices_closed(
                        0,
                        all_quads(Some(self), *blocks, *offset).len() as int,
                    );
                }
                Ok(mesh)
            },
            None => Err(MeshError::TooManyVertices),
        }
    }

    /// Whether the place `neighbor_pos` next to a block of the chunk at
    /// `chunk_offset` is taken by a solid block.
    pub fn neighbor_exists(&self, neighbor_pos: &[i32; 3], blocks: &Blocks, chunk_offset: &[i32; 3]) -> (solid: bool)
        requires
            self.wf(),
            chunk::grid_wf(*blocks),
        ensures
            solid == self.spec_neighbor_exists(
                neighbor_pos[0] as int,
                neighbor_pos[1] as int,
                neighbor_pos[2] as int,
                *blocks,
                *chunk_offset,
            ),
    {
        if pos_in_chunk_bounds(*neighbor_pos) {
            let y: usize = neighbor_pos[1] as usize;
            let x: usize = neighbor_pos[0] as usize;
            let z: usize = neighbor_pos[2] as usize;
            assert(chunk::layer_wf(blocks@[y as int], y as int));
            let material = blocks[y][x][z].material_type;
            return material != MaterialType::AIR;
        } else {
            if neighbor_pos[1] < 0 || neighbor_pos[1] >= CHUNK_Y_SIZE as i32 {
                return false;
            }
            let world_pos = local_pos_to_world(chunk_offset, neighbor_pos);
            let neighbor_chunk_offset = Self::world_pos_to_chunk_offset(world_pos);
            if let Some(slot) = self.get_chunk_at_offset(neighbor_chunk_offset) {
                let local_x: i64 = world_pos[0] - neighbor_chunk_offset[0] * CHUNK_AREA as i64;
                let local_y: usize = neighbor_pos[1] as usize;
                let local_z: i64 = world_pos[2] - neighbor_chunk_offset[2] * CHUNK_AREA as i64;
                let neighbor_chunk = &self.chunks[slot];
                assert(neighbor_chunk.wf());
                assert(chunk::layer_wf(neighbor_chunk.blocks@[local_y as int], local_y as int));
                let material =
                    neighbor_chunk.blocks[local_y][local_x as usize][local_z as usize].material_type;
                return material != MaterialType::AIR;
            }
            return false;
        }
    }
}

} // verus!
