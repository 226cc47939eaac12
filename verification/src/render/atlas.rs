//! Materials and where their faces lie in the texture atlas.
use vstd::prelude::*;
use crate::scene::terrain::block::QuadSide;

verus! {

/// Side of one square tile of the atlas, in pixels.
pub const BLOCK_PIXEL_SIZE: u32 = 16;

/// Side of the whole atlas, in pixels.
pub const ATLAS_PIXEL_SIZE: u32 = 256;

/// The substance of a voxel.
#[allow(dead_code)]
#[derive(Copy, Clone, Debug, PartialEq, Eq, Structural)]
pub enum MaterialType {
    DIRT,
    GRASS,
    ROCK,
    WATER,
    AIR,
    DEBUG,
}

/// The pixel at which a corner of the tile at `atlas_pos` lies: the tile's
/// own corner for corner 0, 15 pixels to the right and 16 pixels down for
/// corner 1.
pub open spec fn spec_atlas_pos_to_coordinates(atlas_pos: (int, int), texture_corner: [u32; 2]) -> [
    u32;
    2
] {
    [
        (atlas_pos.0 * BLOCK_PIXEL_SIZE + if texture_corner[0] == 1 {
            15int
        } else {
            0int
        }) as u32,
        (atlas_pos.1 * BLOCK_PIXEL_SIZE + if texture_corner[1] == 1 {
            16int
        } else {
            0int
        }) as u32,
    ]
}

fn atlas_pos_to_coordinates(atlas_pos: [u32; 2], texture_corner: [u32; 2]) -> (pixel: [u32; 2])
    requires
        atlas_pos[0] < 16,
        atlas_pos[1] < 16,
    ensures
        pixel == spec_atlas_pos_to_coordinates(
            (atlas_pos[0] as int, atlas_pos[1] as int),
            texture_corner,
        ),
{
    let mut pixel_x: u32 = atlas_pos[0] * BLOCK_PIXEL_SIZE;
    let mut pixel_y: u32 = atlas_pos[1] * BLOCK_PIXEL_SIZE;
    if texture_corner[0] == 1 {
        pixel_x += 15;
    }
    if texture_corner[1] == 1 {
        pixel_y += 16;
    }
    [pixel_x, pixel_y]
}

impl MaterialType {
    /// Column and row of the atlas tile painted on `quad_side` of a block of
    /// this material. Air has no tile; the value for it is not used.
    pub open spec fn atlas_tile(self, quad_side: QuadSide) -> (int, int) {
        match self {
            MaterialType::GRASS => match quad_side {
                QuadSide::TOP => (0, 0),
                QuadSide::BOTTOM => (2, 0),
                _ => (3, 0),
            },
            MaterialType::DIRT => (2, 0),
            MaterialType::ROCK => (1, 0),
            MaterialType::WATER => (13, 0),
            MaterialType::AIR => (0, 0),
            MaterialType::DEBUG => (15, 3),
        }
    }

    /// The atlas pixel of a corner of a face: air maps to the origin, every
    /// other material to the corner of its tile.
    pub open spec fn spec_texture_coordinates(
        self,
        texture_corner: [u32; 2],
        quad_side: QuadSide,
    ) -> [u32; 2] {
        if self == MaterialType::AIR {
            [0u32, 0u32]
        } else {
            spec_atlas_pos_to_coordinates(self.atlas_tile(quad_side), texture_corner)
        }
    }

    /// Atlas pixel of the corner `texture_corner` of the face `quad_side`.
    /// Divide by [`ATLAS_PIXEL_SIZE`] for the coordinate a sampler takes.
    pub fn get_texture_coordinates(&self, texture_corner: [u32; 2], quad_side: QuadSide) -> (pixel:
        [u32; 2])
        ensures
            pixel == self.spec_texture_coordinates(texture_corner, quad_side),
    {
        match self {
            MaterialType::GRASS => match quad_side {
                QuadSide::TOP => atlas_pos_to_coordinates([0, 0], texture_corner),
                QuadSide::BOTTOM => atlas_pos_to_coordinates([2, 0], texture_corner),
                QuadSide::RIGHT => atlas_pos_to_coordinates([3, 0], texture_corner),
                QuadSide::LEFT => atlas_pos_to_coordinates([3, 0], texture_corner),
                QuadSide::FRONT => atlas_pos_to_coordinates([3, 0], texture_corner),
                QuadSide::BACK => atlas_pos_to_coordinates([3, 0], texture_corner),
            },
            MaterialType::DIRT => atlas_pos_to_coordinates([2, 0], texture_corner),
            MaterialType::ROCK => atlas_pos_to_coordinates([1, 0], texture_corner),
            MaterialType::WATER => atlas_pos_to_coordinates([13, 0], texture_corner),
            MaterialType::AIR => [0, 0],
            MaterialType::DEBUG => atlas_pos_to_coordinates([15, 3], texture_corner),
        }
    }
}

} // verus!
