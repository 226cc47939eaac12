//! Blocks and the six quads of their faces.
use vstd::prelude::*;
use crate::render::atlas::MaterialType;
use crate::render::vertex::BlockVertex;
use crate::scene::terrain::chunk::CHUNK_AREA;

verus! {

/// The vertex of a face: the corner `pos` of the unit cube, moved to the
/// block at `position`, with the atlas pixel of `texture_corners`.
pub open spec fn spec_quad_vertex(
    pos: [i8; 3],
    material_type: MaterialType,
    texture_corners: [u32; 2],
    position: [i64; 3],
    quad_side: QuadSide,
) -> BlockVertex {
    BlockVertex {
        pos: [
            (pos[0] + position[0]) as i64,
            (pos[1] + position[1]) as i64,
            (pos[2] + position[2]) as i64,
        ],
        texture_coordinates: material_type.spec_texture_coordinates(texture_corners, quad_side),
    }
}

pub fn quad_vertex(
    pos: [i8; 3],
    material_type: MaterialType,
    texture_corners: [u32; 2],
    position: [i64; 3],
    quad_side: QuadSide,
) -> (vertex: BlockVertex)
    requires
        forall|i: int| 0 <= i < 3 ==> i64::MIN <= #[trigger] pos[i] + position[i] <= i64::MAX,
    ensures
        vertex == spec_quad_vertex(pos, material_type, texture_corners, position, quad_side),
{
    let tc = material_type.get_texture_coordinates(texture_corners, quad_side);
    assert(i64::MIN <= pos[0] + position[0] <= i64::MAX);
    assert(i64::MIN <= pos[1] + position[1] <= i64::MAX);
    assert(i64::MIN <= pos[2] + position[2] <= i64::MAX);
    BlockVertex {
        pos: [
            pos[0] as i64 + position[0],
            pos[1] as i64 + position[1],
            pos[2] as i64 + position[2],
        ],
        texture_coordinates: tc,
    }
}

/// A face of a block, named by the direction it looks in.
#[derive(Copy, Clone, Debug, PartialEq, Eq, Structural)]
pub enum QuadSide {
    TOP,
    BOTTOM,
    RIGHT,
    LEFT,
    FRONT,
    BACK,
}

/// The texture corner of the `j`-th vertex of any quad.
pub open spec fn texture_corner(j: int) -> [u32; 2] {
    if j == 0 {
        [0u32, 0u32]
    } else if j == 1 {
        [0u32, 1u32]
    } else if j == 2 {
        [1u32, 1u32]
    } else {
        [1u32, 0u32]
    }
}

impl QuadSide {
    /// The unit vector a face looks along.
    pub open spec fn spec_to_vec(self) -> [i32; 3] {
        match self {
            QuadSide::TOP => [0i32, 1i32, 0i32],
            QuadSide::BOTTOM => [0i32, -1i32, 0i32],
            QuadSide::RIGHT => [1i32, 0i32, 0i32],
            QuadSide::LEFT => [-1i32, 0i32, 0i32],
            QuadSide::FRONT => [0i32, 0i32, 1i32],
            QuadSide::BACK => [0i32, 0i32, -1i32],
        }
    }

    /// The face that looks the other way.
    pub open spec fn opposite(self) -> QuadSide {
        match self {
            QuadSide::TOP => QuadSide::BOTTOM,
            QuadSide::BOTTOM => QuadSide::TOP,
            QuadSide::RIGHT => QuadSide::LEFT,
            QuadSide::LEFT => QuadSide::RIGHT,
            QuadSide::FRONT => QuadSide::BACK,
            QuadSide::BACK => QuadSide::FRONT,
        }
    }

    /// The corner of the unit cube at which the `j`-th vertex of this face
    /// lies. The four run around the face, counter-clockwise when seen from
    /// outside.
    pub open spec fn corner(self, j: int) -> [i8; 3] {
        match self {
            QuadSide::TOP => if j == 0 {
                [0i8, 1i8, 0i8]
            } else if j == 1 {
                [0i8, 1i8, 1i8]
            } else if j == 2 {
                [1i8, 1i8, 1i8]
            } else {
                [1i8, 1i8, 0i8]
            },
            QuadSide::BOTTOM => if j == 0 {
                [0i8, 0i8, 1i8]
            } else if j == 1 {
                [0i8, 0i8, 0i8]
            } else if j == 2 {
                [1i8, 0i8, 0i8]
            } else {
                [1i8, 0i8, 1i8]
            },
            QuadSide::RIGHT => if j == 0 {
                [1i8, 1i8, 1i8]
            } else if j == 1 {
                [1i8, 0i8, 1i8]
            } else if j == 2 {
                [1i8, 0i8, 0i8]
            } else {
                [1i8, 1i8, 0i8]
            },
            QuadSide::LEFT => if j == 0 {
                [0i8, 1i8, 0i8]
            } else if j == 1 {
                [0i8, 0i8, 0i8]
            } else if j == 2 {
                [0i8, 0i8, 1i8]
            } else {
                [0i8, 1i8, 1i8]
            },
            QuadSide::FRONT => if j == 0 {
                [0i8, 1i8, 1i8]
            } else if j == 1 {
                [0i8, 0i8, 1i8]
            } else if j == 2 {
                [1i8, 0i8, 1i8]
            } else {
                [1i8, 1i8, 1i8]
            },
            QuadSide::BACK => if j == 0 {
                [1i8, 1i8, 0i8]
            } else if j == 1 {
                [1i8, 0i8, 0i8]
            } else if j == 2 {
                [0i8, 0i8, 0i8]
            } else {
                [0i8, 1i8, 0i8]
            },
        }
    }

    /// The `j`-th vertex of this face of a block of `material_type` at
    /// `position`.
    pub open spec fn spec_vertex(self, material_type: MaterialType, position: [i64; 3], j: int)
        -> BlockVertex {
        spec_quad_vertex(self.corner(j), material_type, texture_corner(j), position, self)
    }

    pub fn to_vec(self) -> (direction: [i32; 3])
        ensures
            direction == self.spec_to_vec(),
    {
        match self {
            QuadSide::TOP => [0, 1, 0],
            QuadSide::BOTTOM => [0, -1, 0],
            QuadSide::RIGHT => [1, 0, 0],
            QuadSide::LEFT => [-1, 0, 0],
            QuadSide::FRONT => [0, 0, 1],
            QuadSide::BACK => [0, 0, -1],
        }
    }

    pub fn get_vertices(self, material_type: MaterialType, position: [i64; 3]) -> (vertices: [BlockVertex; 4])
        requires
            forall|i: int| 0 <= i < 3 ==> #[trigger] position[i] < i64::MAX,
        ensures
            forall|j: int|
                0 <= j < 4 ==> #[trigger] vertices[j] == self.spec_vertex(material_type, position, j),
    {
        assert(position[0] < i64::MAX && position[1] < i64::MAX && position[2] < i64::MAX);
        match self {
            QuadSide::TOP => [
                quad_vertex([0, 1, 0], material_type, [0, 0], position, self),
                quad_vertex([0, 1, 1], material_type, [0, 1], position, self),
                quad_vertex([1, 1, 1], material_type, [1, 1], position, self),
                quad_vertex([1, 1, 0], material_type, [1, 0], position, self),
            ],
            QuadSide::BOTTOM => [
                quad_vertex([0, 0, 1], material_type, [0, 0], position, self),
                quad_vertex([0, 0, 0], material_type, [0, 1], position, self),
                quad_vertex([1, 0, 0], material_type, [1, 1], position, self),
                quad_vertex([1, 0, 1], material_type, [1, 0], position, self),
            ],
            QuadSide::RIGHT => [
                quad_vertex([1, 1, 1], material_type, [0, 0], position, self),
                quad_vertex([1, 0, 1], material_type, [0, 1], position, self),
                quad_vertex([1, 0, 0], material_type, [1, 1], position, self),
                quad_vertex([1, 1, 0], material_type, [1, 0], position, self),
            ],
            QuadSide::LEFT => [
                quad_vertex([0, 1, 0], material_type, [0, 0], position, self),
                quad_vertex([0, 0, 0], material_type, [0, 1], position, self),
                quad_vertex([0, 0, 1], material_type, [1, 1], position, self),
                quad_vertex([0, 1, 1], material_type, [1, 0], position, self),
            ],
            QuadSide::FRONT => [
                quad_vertex([0, 1, 1], material_type, [0, 0], position, self),
                quad_vertex([0, 0, 1], material_type, [0, 1], position, self),
                quad_vertex([1, 0, 1], material_type, [1, 1], position, self),
                quad_vertex([1, 1, 1], material_type, [1, 0], position, self),
            ],
            QuadSide::BACK => [
                quad_vertex([1, 1, 0], material_type, [0, 0], position, self),
                quad_vertex([1, 0, 0], material_type, [0, 1], position, self),
                quad_vertex([0, 0, 0], material_type, [1, 1], position, self),
                quad_vertex([0, 1, 0], material_type, [1, 0], position, self),
            ],
        }
    }
}

/// One face of a block: its four vertices and the side it is on.
#[derive(Copy, Clone, Debug)]
pub struct Quad {
    pub vertices: [BlockVertex; 4],
    pub side: QuadSide,
}

/// The offset of the `k`-th of the six indices of a quad from its first
/// vertex: two triangles, `0 1 2` and `2 3 0`.
pub open spec fn quad_index_offset(k: int) -> int {
    if k == 0 {
        0
    } else if k == 1 {
        1
    } else if k == 2 {
        2
    } else if k == 3 {
        2
    } else if k == 4 {
        3
    } else {
        0
    }
}

impl Quad {
    /// Whether `self` is the face `quad_side` of a block of `material_type`
    /// whose corner nearest the origin is at `position`.
    pub open spec fn is_face(self, material_type: MaterialType, quad_side: QuadSide, position: [i64; 3])
        -> bool {
        &&& self.side == quad_side
        &&& forall|j: int|
            0 <= j < 4 ==> #[trigger] self.vertices[j] == quad_side.spec_vertex(
                material_type,
                position,
                j,
            )
    }

    pub fn new(material_type: MaterialType, quad_side: QuadSide, position: [i64; 3]) -> (quad: Self)
        requires
            forall|i: int| 0 <= i < 3 ==> #[trigger] position[i] < i64::MAX,
        ensures
            quad.is_face(material_type, quad_side, position),
    {
        Self { vertices: quad_side.get_vertices(material_type, position), side: quad_side }
    }

    /// The six indices of the `i`-th quad of a mesh that holds nothing but
    /// quads.
    pub fn get_indices(&self, i: u16) -> (indices: [u16; 6])
        requires
            4 * i + 3 <= u16::MAX,
        ensures
            forall|k: int| 0 <= k < 6 ==> #[trigger] indices[k] == 4 * i + quad_index_offset(k),
    {
        let displacement: u16 = i * 4;
        [
            0 + displacement,
            1 + displacement,
            2 + displacement,
            2 + displacement,
            3 + displacement,
            0 + displacement,
        ]
    }
}

/// A voxel: where it is in its chunk, what it is made of, and the quads of
/// its six faces in the order top, bottom, right, left, front, back.
#[derive(Copy, Clone, Debug)]
pub struct Block {
    pub quads: [Quad; 6],
    pub position: [i32; 3],
    pub material_type: MaterialType,
}

/// The side of the `k`-th quad of a block.
pub open spec fn side_of(k: int) -> QuadSide {
    if k == 0 {
        QuadSide::TOP
    } else if k == 1 {
        QuadSide::BOTTOM
    } else if k == 2 {
        QuadSide::RIGHT
    } else if k == 3 {
        QuadSide::LEFT
    } else if k == 4 {
        QuadSide::FRONT
    } else {
        QuadSide::BACK
    }
}

/// World position of the block at `position` in the chunk at `chunk_offset`.
/// Chunks are stacked along x and z only.
pub open spec fn block_world_pos(position: [i32; 3], chunk_offset: [i32; 3]) -> [i64; 3] {
    [
        (position[0] + chunk_offset[0] * CHUNK_AREA) as i64,
        position[1] as i64,
        (position[2] + chunk_offset[2] * CHUNK_AREA) as i64,
    ]
}

impl Block {
    /// Whether the quads of `self` are the faces of a block of its material
    /// at `position` in the chunk at `chunk_offset`.
    pub open spec fn is_block(self, material_type: MaterialType, position: [i32; 3], chunk_offset: [i32; 3])
        -> bool {
        &&& self.material_type == material_type
        &&& self.position == position
        &&& forall|k: int|
            0 <= k < 6 ==> (#[trigger] self.quads[k]).is_face(
                material_type,
                side_of(k),
                block_world_pos(position, chunk_offset),
            )
    }

    pub fn new(material_type: MaterialType, position: [i32; 3], chunk_offset: [i32; 3]) -> (block: Self)
        ensures
            block.is_block(material_type, position, chunk_offset),
    {
        let quads = Block::generate_quads(material_type, position, chunk_offset);
        Self { quads, position, material_type }
    }

    pub fn generate_quads(material_type: MaterialType, position: [i32; 3], chunk_offset: [i32; 3]) -> (quads: [Quad; 6])
        ensures
            forall|k: int|
                0 <= k < 6 ==> (#[trigger] quads[k]).is_face(
                    material_type,
                    side_of(k),
                    block_world_pos(position, chunk_offset),
                ),
    {
        let world_pos: [i64; 3] = [
            position[0] as i64 + (chunk_offset[0] as i64 * CHUNK_AREA as i64),
            position[1] as i64,
            position[2] as i64 + (chunk_offset[2] as i64 * CHUNK_AREA as i64),
        ];
        assert(world_pos == block_world_pos(position, chunk_offset));
        assert(world_pos[0] < i64::MAX && world_pos[1] < i64::MAX && world_pos[2] < i64::MAX);

        let top = Quad::new(material_type, QuadSide::TOP, world_pos);
        let bottom = Quad::new(material_type, QuadSide::BOTTOM, world_pos);
        let right = Quad::new(material_type, QuadSide::RIGHT, world_pos);
        let left = Quad::new(material_type, QuadSide::LEFT, world_pos);
        let front = Quad::new(material_type, QuadSide::FRONT, world_pos);
        let back = Quad::new(material_type, QuadSide::BACK, world_pos);

        [top, bottom, right, left, front, back]
    }

    /// Changes the material, and with it the quads, for a block in the
    /// chunk at `offset`.
    pub fn update(&mut self, new_material_type: MaterialType, offset: [i32; 3])
        ensures
            final(self).is_block(new_material_type, old(self).position, offset),
    {
        self.material_type = new_material_type;
        self.quads = Block::generate_quads(new_material_type, self.position, offset);
    }
}

} // verus!
