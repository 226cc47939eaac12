//! Chunks: a grid of blocks with its place in the world.
use vstd::prelude::*;
use rayon::iter::{IndexedParallelIterator, IntoParallelRefMutIterator, ParallelIterator};
use crate::render::atlas::MaterialType;
use crate::render::mesh::Mesh;
use crate::render::vertex::BlockVertex;
use crate::scene::terrain::block::Block;
use crate::scene::terrain::LAND_LEVEL;

verus! {

/// Height of a chunk, in blocks.
pub const CHUNK_Y_SIZE: usize = 100;

/// Width and depth of a chunk, in blocks.
pub const CHUNK_AREA: usize = 16;

/// Number of blocks in a chunk.
pub const TOTAL_CHUNK_SIZE: usize = CHUNK_Y_SIZE * CHUNK_AREA * CHUNK_AREA;

/// The blocks of a chunk: `blocks[y][x][z]`.
pub type Blocks = Vec<Vec<Vec<Block>>>;

/// One horizontal layer of a chunk: `layer[x][z]`.
pub type Layer = Vec<Vec<Block>>;

/// Whether `(x, y, z)` is a place inside a chunk.
pub open spec fn in_chunk(x: int, y: int, z: int) -> bool {
    0 <= x < CHUNK_AREA && 0 <= y < CHUNK_Y_SIZE && 0 <= z < CHUNK_AREA
}

/// The block at `(x, y, z)` of a grid.
pub open spec fn block_at(blocks: Blocks, x: int, y: int, z: int) -> Block {
    blocks@[y]@[x]@[z]
}

/// Whether a layer has the width and depth of a chunk and each of its
/// blocks knows its place in layer `y`.
pub open spec fn layer_wf(layer: Layer, y: int) -> bool {
    &&& layer@.len() == CHUNK_AREA
    &&& forall|x: int| 0 <= x < CHUNK_AREA ==> (#[trigger] layer@[x])@.len() == CHUNK_AREA
    &&& forall|x: int, z: int|
        0 <= x < CHUNK_AREA && 0 <= z < CHUNK_AREA ==> {
            let p = (#[trigger] layer@[x]@[z]).position;
            p[0] == x && p[1] == y && p[2] == z
        }
}

/// Whether a grid has the size of a chunk and each of its blocks knows its
/// place.
pub open spec fn grid_wf(blocks: Blocks) -> bool {
    &&& blocks@.len() == CHUNK_Y_SIZE
    &&& forall|y: int| 0 <= y < CHUNK_Y_SIZE ==> layer_wf(#[trigger] blocks@[y], y)
}

/// The heights of the 16 x 16 columns of one chunk: for each column the
/// level of its topmost block of land. A height below 0 is a column without
/// land.
pub struct HeightMap {
    heights: Vec<i64>,
}

impl HeightMap {
    #[verifier::type_invariant]
    spec fn inv(self) -> bool {
        self.heights@.len() == CHUNK_AREA * CHUNK_AREA
    }

    /// The heights, column `(x, z)` at `x * CHUNK_AREA + z`.
    pub closed spec fn view(self) -> Seq<i64> {
        self.heights@
    }

    /// The height of column `(x, z)`.
    pub open spec fn spec_get(self, x: int, z: int) -> i64 {
        self@[x * CHUNK_AREA + z]
    }

    /// A height map of the given heights, column `(x, z)` at
    /// `x * CHUNK_AREA + z`, if there is one height for each column.
    pub fn new(heights: Vec<i64>) -> (map: Option<Self>)
        ensures
            map is Some <==> heights@.len() == CHUNK_AREA * CHUNK_AREA,
            map is Some ==> map->0@ == heights@,
    {
        if heights.len() == CHUNK_AREA * CHUNK_AREA {
            Some(Self { heights })
        } else {
            None
        }
    }

    /// The height of column `(x, z)`.
    pub fn get(&self, x: usize, z: usize) -> (height: i64)
        requires
            x < CHUNK_AREA,
            z < CHUNK_AREA,
        ensures
            height == self.spec_get(x as int, z as int),
    {
        proof {
            use_type_invariant(self);
        }
        self.heights[x * CHUNK_AREA + z]
    }
}

/// The material of a block at level `y` in a column whose land ends at
/// level `height`: above the land water up to the sea level and air over it,
/// grass on top of the land, rock at the bottom of the world, dirt between.
/// Where the land ends below level 0 the whole column is above it.
pub open spec fn cell_material(y: int, height: int) -> MaterialType {
    if y > height {
        if y <= LAND_LEVEL {
            MaterialType::WATER
        } else {
            MaterialType::AIR
        }
    } else if y == height {
        MaterialType::GRASS
    } else if y == 0 {
        MaterialType::ROCK
    } else {
        MaterialType::DIRT
    }
}

/// The material of a block at level `y` in a column of the given height.
pub fn material_at(y: usize, height: i64) -> (material: MaterialType)
    ensures
        material == cell_material(y as int, height as int),
{
    let level: u64 = y as u64;
    if height < 0 || level > height as u64 {
        if y <= LAND_LEVEL {
            MaterialType::WATER
        } else {
            MaterialType::AIR
        }
    } else if level == height as u64 {
        MaterialType::GRASS
    } else if y == 0 {
        MaterialType::ROCK
    } else {
        MaterialType::DIRT
    }
}

/// Whether layer `y` holds the blocks that `heights` asks for in the chunk
/// at `offset`.
pub open spec fn layer_generated(layer: Layer, y: int, offset: [i32; 3], heights: HeightMap) -> bool {
    &&& layer@.len() == CHUNK_AREA
    &&& forall|x: int| 0 <= x < CHUNK_AREA ==> (#[trigger] layer@[x])@.len() == CHUNK_AREA
    &&& forall|x: int, z: int|
        0 <= x < CHUNK_AREA && 0 <= z < CHUNK_AREA ==> (#[trigger] layer@[x]@[z]).is_block(
            cell_material(y, heights.spec_get(x, z) as int),
            [x as i32, y as i32, z as i32],
            offset,
        )
}

/// Whether a grid holds the blocks that `heights` asks for in the chunk at
/// `offset`.
pub open spec fn grid_generated(blocks: Blocks, offset: [i32; 3], heights: HeightMap) -> bool {
    &&& blocks@.len() == CHUNK_Y_SIZE
    &&& forall|y: int|
        0 <= y < CHUNK_Y_SIZE ==> layer_generated(#[trigger] blocks@[y], y, offset, heights)
}

/// Gives each block of layer `y` the material that `heights` asks for.
pub fn generate_layer(layer: &mut Layer, y: usize, offset: [i32; 3], heights: &HeightMap)
    requires
        y < CHUNK_Y_SIZE,
        layer_wf(*old(layer), y as int),
    ensures
        layer_generated(*final(layer), y as int, offset, *heights),
{
    let mut x: usize = 0;
    while x < CHUNK_AREA
        invariant
            y < CHUNK_Y_SIZE,
            x <= CHUNK_AREA,
            layer_wf(*layer, y as int),
            forall|i: int, z: int|
                0 <= i < x && 0 <= z < CHUNK_AREA ==> (#[trigger] layer@[i]@[z]).is_block(
                    cell_material(y as int, heights.spec_get(i, z) as int),
                    [i as i32, y as i32, z as i32],
                    offset,
                ),
        decreases CHUNK_AREA - x,
    {
        let mut z: usize = 0;
        while z < CHUNK_AREA
            invariant
                y < CHUNK_Y_SIZE,
                x < CHUNK_AREA,
                z <= CHUNK_AREA,
                layer_wf(*layer, y as int),
                forall|i: int, k: int|
                    0 <= i < x && 0 <= k < CHUNK_AREA ==> (#[trigger] layer@[i]@[k]).is_block(
                        cell_material(y as int, heights.spec_get(i, k) as int),
                        [i as i32, y as i32, k as i32],
                        offset,
                    ),
                forall|k: int|
                    0 <= k < z ==> (#[trigger] layer@[x as int]@[k]).is_block(
                        cell_material(y as int, heights.spec_get(x as int, k) as int),
                        [x as i32, y as i32, k as i32],
                        offset,
                    ),
            decreases CHUNK_AREA - z,
        {
            let material = material_at(y, heights.get(x, z));
            let ghost before = *layer;
            assert(before@[x as int]@.len() == CHUNK_AREA);
            let mut block: Block = layer[x][z];
            block.update(material, offset);
            layer[x][z] = block;
            proof {
                let p = before@[x as int]@[z as int].position;
                assert(p[0] == x && p[1] == y && p[2] == z);
                assert(p == [x as i32, y as i32, z as i32]);
                assert(layer@[x as int]@ == before@[x as int]@.update(z as int, block));
                assert(layer@ == before@.update(x as int, layer@[x as int]));
            }
            z += 1;
        }
        x += 1;
    }
}

/// Runs [`generate_layer`] on every layer of the grid, the layers shared out
/// among the threads of rayon's pool.
///
/// Trusted: `par_iter_mut().enumerate().for_each(..)` of rayon hands the
/// closure each element of the vector once, together with its index, and
/// returns when all calls have returned; the vector keeps its length.
#[verifier::external_body]
fn generate_layers(blocks: &mut Blocks, offset: [i32; 3], heights: &HeightMap)
    requires
        grid_wf(*old(blocks)),
    ensures
        final(blocks)@.len() == CHUNK_Y_SIZE,
        forall|y: int|
            0 <= y < CHUNK_Y_SIZE ==> layer_generated(
                #[trigger] final(blocks)@[y],
                y,
                offset,
                *heights,
            ),
{
    blocks.par_iter_mut().enumerate().for_each(|(y, layer)| generate_layer(layer, y, offset, heights));
}

/// Fills the grid of the chunk at `offset` with the terrain of `heights`.
pub fn generate_chunk(blocks: &mut Blocks, offset: [i32; 3], heights: &HeightMap)
    requires
        grid_wf(*old(blocks)),
    ensures
        grid_generated(*final(blocks), offset, *heights),
        grid_wf(*final(blocks)),
{
    generate_layers(blocks, offset, heights);
    proof {
        assert forall|y: int| 0 <= y < CHUNK_Y_SIZE implies layer_wf(#[trigger] blocks@[y], y) by {
            lemma_generated_layer_wf(blocks@[y], y, offset, *heights);
        }
    }
}

/// A generated layer is well formed.
pub proof fn lemma_generated_layer_wf(layer: Layer, y: int, offset: [i32; 3], heights: HeightMap)
    requires
        layer_generated(layer, y, offset, heights),
        0 <= y < CHUNK_Y_SIZE,
    ensures
        layer_wf(layer, y),
{
    assert forall|x: int, z: int| 0 <= x < CHUNK_AREA && 0 <= z < CHUNK_AREA implies {
        let p = (#[trigger] layer@[x]@[z]).position;
        p[0] == x && p[1] == y && p[2] == z
    } by {
        let b = layer@[x]@[z];
        assert(b.is_block(
            cell_material(y, heights.spec_get(x, z) as int),
            [x as i32, y as i32, z as i32],
            offset,
        ));
    }
}

/// A chunk: its blocks, its place in the grid of chunks, and its mesh.
pub struct Chunk {
    pub blocks: Blocks,
    pub offset: [i32; 3],
    pub updated: bool,
    pub mesh: Mesh<BlockVertex>,
}

/// The material of a block at level `y` of a chunk that was not generated
/// yet: a marker material up to the sea level, air over it.
pub open spec fn initial_material(y: int) -> MaterialType {
    if y <= LAND_LEVEL {
        MaterialType::DEBUG
    } else {
        MaterialType::AIR
    }
}

impl Chunk {
    /// Whether the grid of the chunk is well formed.
    pub open spec fn wf(self) -> bool {
        grid_wf(self.blocks)
    }

    /// Whether `self` is a chunk as [`Chunk::new`] makes it for `offset`.
    pub open spec fn is_initial(self, offset: [i32; 3]) -> bool {
        &&& self.wf()
        &&& self.offset == offset
        &&& self.updated
        &&& self.mesh.verts@.len() == 0
        &&& self.mesh.indices@.len() == 0
        &&& forall|x: int, y: int, z: int|
            in_chunk(x, y, z) ==> (#[trigger] block_at(self.blocks, x, y, z)).is_block(
                initial_material(y),
                [x as i32, y as i32, z as i32],
                offset,
            )
    }

    /// A chunk at `offset` that is yet to be generated.
    pub fn new(offset: [i32; 3]) -> (chunk: Self)
        ensures
            chunk.is_initial(offset),
    {
        let mut blocks: Blocks = Vec::new();
        let mut y: usize = 0;
        while y < CHUNK_Y_SIZE
            invariant
                y <= CHUNK_Y_SIZE,
                blocks@.len() == y,
                forall|j: int| 0 <= j < y ==> layer_wf(#[trigger] blocks@[j], j),
                forall|i: int, j: int, k: int|
                    in_chunk(i, j, k) && j < y ==> (#[trigger] block_at(blocks, i, j, k)).is_block(
                        initial_material(j),
                        [i as i32, j as i32, k as i32],
                        offset,
                    ),
            decreases CHUNK_Y_SIZE - y,
        {
            let material_type = if y < LAND_LEVEL {
                MaterialType::DEBUG
            } else if y == LAND_LEVEL {
                MaterialType::DEBUG
            } else {
                MaterialType::AIR
            };
            let mut layer: Layer = Vec::new();
            let mut x: usize = 0;
            while x < CHUNK_AREA
                invariant
                    y < CHUNK_Y_SIZE,
                    x <= CHUNK_AREA,
                    material_type == initial_material(y as int),
                    layer@.len() == x,
                    forall|i: int| 0 <= i < x ==> (#[trigger] layer@[i])@.len() == CHUNK_AREA,
                    forall|i: int, k: int|
                        0 <= i < x && 0 <= k < CHUNK_AREA ==> (#[trigger] layer@[i]@[k]).is_block(
                            material_type,
                            [i as i32, y as i32, k as i32],
                            offset,
                        ),
                decreases CHUNK_AREA - x,
            {
                let mut row: Vec<Block> = Vec::new();
                let mut z: usize = 0;
                while z < CHUNK_AREA
                    invariant
                        y < CHUNK_Y_SIZE,
                        x < CHUNK_AREA,
                        z <= CHUNK_AREA,
                        row@.len() == z,
                        forall|k: int|
                            0 <= k < z ==> (#[trigger] row@[k]).is_block(
                                material_type,
                                [x as i32, y as i32, k as i32],
                                offset,
                            ),
                    decreases CHUNK_AREA - z,
                {
                    row.push(Block::new(material_type, [x as i32, y as i32, z as i32], offset));
                    z += 1;
                }
                layer.push(row);
                x += 1;
            }
            proof {
                assert forall|i: int, k: int| 0 <= i < CHUNK_AREA && 0 <= k < CHUNK_AREA implies {
                    let p = (#[trigger] layer@[i]@[k]).position;
                    p[0] == i && p[1] == y && p[2] == k
                } by {
                    assert(layer@[i]@[k].is_block(
                        material_type,
                        [i as i32, y as i32, k as i32],
                        offset,
                    ));
                }
            }
            let ghost below = blocks;
            let ghost top = layer;
            blocks.push(layer);
            proof {
                assert forall|i: int, j: int, k: int| in_chunk(i, j, k) && j <= y implies (
                #[trigger] block_at(blocks, i, j, k)).is_block(
                    initial_material(j),
                    [i as i32, j as i32, k as i32],
                    offset,
                ) by {
                    if j < y {
                        assert(blocks@[j] == below@[j]);
                        assert(block_at(blocks, i, j, k) == block_at(below, i, j, k));
                    } else {
                        assert(blocks@[j] == top);
                        assert(block_at(blocks, i, j, k) == top@[i]@[k]);
                    }
                }
            }
            y += 1;
        }
        Self { updated: true, blocks, offset, mesh: Mesh::new() }
    }
}

/// The world position of the place `local_pos` of the chunk at `offset`.
/// Chunks are stacked along x and z only, so the level stays what it is.
pub open spec fn spec_local_pos_to_world(offset: [i32; 3], local_pos: [i32; 3]) -> [i64; 3] {
    [
        (local_pos[0] + offset[0] * CHUNK_AREA) as i64,
        local_pos[1] as i64,
        (local_pos[2] + offset[2] * CHUNK_AREA) as i64,
    ]
}

pub fn local_pos_to_world(offset: &[i32; 3], local_pos: &[i32; 3]) -> (world: [i64; 3])
    ensures
        world == spec_local_pos_to_world(*offset, *local_pos),
{
    [
        local_pos[0] as i64 + (offset[0] as i64 * CHUNK_AREA as i64),
        local_pos[1] as i64,
        local_pos[2] as i64 + (offset[2] as i64 * CHUNK_AREA as i64),
    ]
}

pub fn pos_in_chunk_bounds(pos: [i32; 3]) -> (inside: bool)
    ensures
        inside == in_chunk(pos[0] as int, pos[1] as int, pos[2] as int),
{
    if pos[0] >= 0 && pos[1] >= 0 && pos[2] >= 0 {
        if pos[0] < CHUNK_AREA as i32 && pos[1] < CHUNK_Y_SIZE as i32 && pos[2] < CHUNK_AREA as i32 {
            return true;
        }
    }
    return false;
}

} // verus!
