//! The vertex of a block face.
use vstd::prelude::*;

verus! {

/// One corner of a block face.
///
/// Both parts are whole numbers: `pos` is a world position in blocks, and
/// `texture_coordinates` is a position in the texture atlas in pixels, out of
/// [`ATLAS_PIXEL_SIZE`](crate::render::atlas::ATLAS_PIXEL_SIZE).
#[derive(Copy, Clone, Debug)]
pub struct BlockVertex {
    pub pos: [i64; 3],
    pub texture_coordinates: [u32; 2],
}

} // verus!
