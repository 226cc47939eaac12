//! Telling at run time whether a chunk and a terrain are well formed.
//!
//! The fields of both are open to everyone, so a caller who has written to
//! them can ask before calling on.
use vstd::prelude::*;
use crate::scene::terrain::chunk::{
    grid_wf, layer_wf, Blocks, Chunk, Layer, CHUNK_AREA, CHUNK_Y_SIZE,
};
use crate::scene::terrain::{Terrain, CHUNKS_ARRAY_SIZE, CHUNKS_VIEW_SIZE};

verus! {

/// Whether a layer has the size of a layer of a chunk and each of its blocks
/// knows its place in layer `y`.
pub fn layer_is_well_formed(layer: &Layer, y: usize) -> (ok: bool)
    requires
        y < CHUNK_Y_SIZE,
    ensures
        ok == layer_wf(*layer, y as int),
{
    if layer.len() != CHUNK_AREA {
        return false;
    }
    let mut x: usize = 0;
    while x < CHUNK_AREA
        invariant
            x <= CHUNK_AREA,
            layer@.len() == CHUNK_AREA,
            forall|i: int| 0 <= i < x ==> (#[trigger] layer@[i])@.len() == CHUNK_AREA,
        decreases CHUNK_AREA - x,
    {
        if layer[x].len() != CHUNK_AREA {
            assert((layer@[x as int])@.len() != CHUNK_AREA);
            return false;
        }
        x += 1;
    }
    x = 0;
    while x < CHUNK_AREA
        invariant
            x <= CHUNK_AREA,
            y < CHUNK_Y_SIZE,
            layer@.len() == CHUNK_AREA,
            forall|i: int| 0 <= i < CHUNK_AREA ==> (#[trigger] layer@[i])@.len() == CHUNK_AREA,
            forall|i: int, k: int|
                0 <= i < x && 0 <= k < CHUNK_AREA ==> {
                    let p = (#[trigger] layer@[i]@[k]).position;
                    p[0] == i && p[1] == y && p[2] == k
                },
        decreases CHUNK_AREA - x,
    {
        let mut z: usize = 0;
        while z < CHUNK_AREA
            invariant
                x < CHUNK_AREA,
                z <= CHUNK_AREA,
                y < CHUNK_Y_SIZE,
                layer@.len() == CHUNK_AREA,
                forall|i: int| 0 <= i < CHUNK_AREA ==> (#[trigger] layer@[i])@.len() == CHUNK_AREA,
                forall|i: int, k: int|
                    0 <= i < x && 0 <= k < CHUNK_AREA ==> {
                        let p = (#[trigger] layer@[i]@[k]).position;
                        p[0] == i && p[1] == y && p[2] == k
                    },
                forall|k: int|
                    0 <= k < z ==> {
                        let p = (#[trigger] layer@[x as int]@[k]).position;
                        p[0] == x && p[1] == y && p[2] == k
                    },
            decreases CHUNK_AREA - z,
        {
            let position = layer[x][z].position;
            if position[0] != x as i32 || position[1] != y as i32 || position[2] != z as i32 {
                proof {
                    let p = layer@[x as int]@[z as int].position;
                    assert(!(p[0] == x && p[1] == y && p[2] == z));
                }
                return false;
            }
            z += 1;
        }
        x += 1;
    }
    true
}

/// Whether a grid has the size of a chunk and each of its blocks knows its
/// place.
pub fn grid_is_well_formed(blocks: &Blocks) -> (ok: bool)
    ensures
        ok == grid_wf(*blocks),
{
    if blocks.len() != CHUNK_Y_SIZE {
        return false;
    }
    let mut y: usize = 0;
    while y < CHUNK_Y_SIZE
        invariant
            y <= CHUNK_Y_SIZE,
            blocks@.len() == CHUNK_Y_SIZE,
            forall|j: int| 0 <= j < y ==> layer_wf(#[trigger] blocks@[j], j),
        decreases CHUNK_Y_SIZE - y,
    {
        if !layer_is_well_formed(&blocks[y], y) {
            assert(!layer_wf(blocks@[y as int], y as int));
            return false;
        }
        y += 1;
    }
    true
}

impl Chunk {
    /// Whether the grid of the chunk is well formed.
    pub fn is_well_formed(&self) -> (ok: bool)
        ensures
            ok == self.wf(),
    {
        grid_is_well_formed(&self.blocks)
    }
}

impl Terrain {
    /// Whether slot `s` waits in the free list.
    pub fn slot_is_free(&self, s: usize) -> (free: bool)
        ensures
            free == self.is_free(s as int),
    {
        let mut k: usize = 0;
        while k < self.free_chunk_indices.len()
            invariant
                k <= self.free_chunk_indices@.len(),
                forall|j: int| 0 <= j < k ==> #[trigger] self.free_chunk_indices@[j] != s,
            decreases self.free_chunk_indices@.len() - k,
        {
            if self.free_chunk_indices[k] == s {
                return true;
            }
            k += 1;
        }
        false
    }

    /// Whether some place of the window is held by slot `s`.
    pub fn slot_is_mapped(&self, s: usize) -> (mapped: bool)
        requires
            self.chunk_indices@.len() == CHUNKS_ARRAY_SIZE,
        ensures
            mapped == self.is_mapped(s as int),
    {
        let mut i: usize = 0;
        while i < CHUNKS_ARRAY_SIZE
            invariant
                i <= CHUNKS_ARRAY_SIZE,
                self.chunk_indices@.len() == CHUNKS_ARRAY_SIZE,
                forall|j: int| 0 <= j < i ==> #[trigger] self.chunk_indices@[j] != Some(s),
            decreases CHUNKS_ARRAY_SIZE - i,
        {
            match self.chunk_indices[i] {
                Some(t) => {
                    if t == s {
                        return true;
                    }
                },
                None => {},
            }
            i += 1;
        }
        false
    }

    /// Whether the corner of the window lies where the centre puts it, and
    /// the window ends inside the range of the offsets.
    fn window_is_well_formed(&self) -> (ok: bool)
        ensures
            ok == {
                &&& self.chunks_origin[0] == self.center_offset[0] - CHUNKS_VIEW_SIZE / 2
                &&& self.chunks_origin[1] == 0
                &&& self.center_offset[1] == 0
                &&& self.chunks_origin[2] == self.center_offset[2] - CHUNKS_VIEW_SIZE / 2
                &&& self.chunks_origin[0] + CHUNKS_VIEW_SIZE <= i32::MAX
                &&& self.chunks_origin[2] + CHUNKS_VIEW_SIZE <= i32::MAX
            },
    {
        let half: i64 = (CHUNKS_VIEW_SIZE / 2) as i64;
        let size: i64 = CHUNKS_VIEW_SIZE as i64;
        self.chunks_origin[0] as i64 == self.center_offset[0] as i64 - half
            && self.chunks_origin[1] == 0 && self.center_offset[1] == 0
            && self.chunks_origin[2] as i64 == self.center_offset[2] as i64 - half
            && self.chunks_origin[0] as i64 + size <= i32::MAX as i64
            && self.chunks_origin[2] as i64 + size <= i32::MAX as i64
    }

    /// Whether each place of the window that holds a chunk holds it in a
    /// slot whose chunk lies at that place.
    fn places_are_well_formed(&self) -> (ok: bool)
        requires
            self.chunks@.len() == CHUNKS_ARRAY_SIZE,
            self.chunk_indices@.len() == CHUNKS_ARRAY_SIZE,
            self.chunks_origin[0] + CHUNKS_VIEW_SIZE <= i32::MAX,
            self.chunks_origin[2] + CHUNKS_VIEW_SIZE <= i32::MAX,
        ensures
            ok == (forall|i: int|
                0 <= i < CHUNKS_ARRAY_SIZE ==> (#[trigger] self.chunk_indices@[i] matches Some(s)
                    ==> {
                    &&& s < CHUNKS_ARRAY_SIZE
                    &&& self.chunks@[s as int].offset == self.spec_chunk_offset(i)
                })),
    {
        let mut i: usize = 0;
        while i < CHUNKS_ARRAY_SIZE
            invariant
                i <= CHUNKS_ARRAY_SIZE,
                self.chunks@.len() == CHUNKS_ARRAY_SIZE,
                self.chunk_indices@.len() == CHUNKS_ARRAY_SIZE,
                self.chunks_origin[0] + CHUNKS_VIEW_SIZE <= i32::MAX,
                self.chunks_origin[2] + CHUNKS_VIEW_SIZE <= i32::MAX,
                forall|j: int|
                    0 <= j < i ==> (#[trigger] self.chunk_indices@[j] matches Some(s) ==> {
                        &&& s < CHUNKS_ARRAY_SIZE
                        &&& self.chunks@[s as int].offset == self.spec_chunk_offset(j)
                    }),
            decreases CHUNKS_ARRAY_SIZE - i,
        {
            assert(CHUNKS_VIEW_SIZE == 2 && CHUNKS_ARRAY_SIZE == 4);
            match self.chunk_indices[i] {
                Some(s) => {
                    if s >= CHUNKS_ARRAY_SIZE {
                        return false;
                    }
                    let offset = self.chunks[s].offset;
                    let at: [i32; 3] = [
                        self.chunks_origin[0] + (i % CHUNKS_VIEW_SIZE) as i32,
                        self.chunks_origin[1],
                        self.chunks_origin[2] + (i / CHUNKS_VIEW_SIZE) as i32,
                    ];
                    assert(at == self.spec_chunk_offset(i as int));
                    if offset[0] != at[0] || offset[1] != at[1] || offset[2] != at[2] {
                        return false;
                    }
                    assert(offset =~= at);
                },
                None => {},
            }
            i += 1;
        }
        true
    }

    /// Whether the free list names slots only, and none twice.
    fn free_list_is_well_formed(&self) -> (ok: bool)
        ensures
            ok == {
                &&& forall|k: int|
                    0 <= k < self.free_chunk_indices@.len()
                        ==> #[trigger] self.free_chunk_indices@[k] < CHUNKS_ARRAY_SIZE
                &&& forall|k: int, l: int|
                    0 <= k < l < self.free_chunk_indices@.len()
                        ==> #[trigger] self.free_chunk_indices@[k]
                        != #[trigger] self.free_chunk_indices@[l]
            },
    {
        let n = self.free_chunk_indices.len();
        let mut l: usize = 0;
        while l < n
            invariant
                l <= n,
                n == self.free_chunk_indices@.len(),
                forall|k: int|
                    0 <= k < l ==> #[trigger] self.free_chunk_indices@[k] < CHUNKS_ARRAY_SIZE,
                forall|k: int, m: int|
                    0 <= k < m < l ==> #[trigger] self.free_chunk_indices@[k]
                        != #[trigger] self.free_chunk_indices@[m],
            decreases n - l,
        {
            let s = self.free_chunk_indices[l];
            if s >= CHUNKS_ARRAY_SIZE {
                return false;
            }
            let mut k: usize = 0;
            while k < l
                invariant
                    k <= l,
                    l < n,
                    n == self.free_chunk_indices@.len(),
                    s == self.free_chunk_indices@[l as int],
                    forall|j: int| 0 <= j < k ==> #[trigger] self.free_chunk_indices@[j] != s,
                decreases l - k,
            {
                if self.free_chunk_indices[k] == s {
                    return false;
                }
                k += 1;
            }
            l += 1;
        }
        true
    }

    /// Whether the terrain is well formed.
    pub fn is_well_formed(&self) -> (ok: bool)
        ensures
            ok == self.wf(),
    {
        if self.chunks.len() != CHUNKS_ARRAY_SIZE || self.chunk_indices.len() != CHUNKS_ARRAY_SIZE
            || self.updated_indices.len() != CHUNKS_ARRAY_SIZE {
            return false;
        }
        let mut s: usize = 0;
        while s < CHUNKS_ARRAY_SIZE
            invariant
                s <= CHUNKS_ARRAY_SIZE,
                self.chunks@.len() == CHUNKS_ARRAY_SIZE,
                forall|t: int| 0 <= t < s ==> (#[trigger] self.chunks@[t]).wf(),
            decreases CHUNKS_ARRAY_SIZE - s,
        {
            if !self.chunks[s].is_well_formed() {
                assert(!self.chunks@[s as int].wf());
                return false;
            }
            s += 1;
        }
        if !self.window_is_well_formed() {
            return false;
        }
        if !self.places_are_well_formed() {
            return false;
        }
        if !self.free_list_is_well_formed() {
            return false;
        }
        s = 0;
        while s < CHUNKS_ARRAY_SIZE
            invariant
                s <= CHUNKS_ARRAY_SIZE,
                self.chunk_indices@.len() == CHUNKS_ARRAY_SIZE,
                forall|t: int|
                    0 <= t < s ==> (#[trigger] self.is_free(t) <==> !self.is_mapped(t)),
            decreases CHUNKS_ARRAY_SIZE - s,
        {
            if self.slot_is_free(s) == self.slot_is_mapped(s) {
                assert(!(self.is_free(s as int) <==> !self.is_mapped(s as int)));
                return false;
            }
            s += 1;
        }
        true
    }
}

} // verus!
