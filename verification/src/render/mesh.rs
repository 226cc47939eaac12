//! Meshes on the CPU side, and how the blocks of a chunk become one.
use vstd::prelude::*;
use vstd::std_specs::iter::IteratorSpec;
use crate::render::atlas::MaterialType;
use crate::render::vertex::BlockVertex;
use crate::scene::terrain::block::{quad_index_offset, Block, Quad};
use crate::scene::terrain::chunk::{
    block_at, grid_wf, in_chunk, layer_wf, pos_in_chunk_bounds, Blocks, CHUNK_AREA, CHUNK_Y_SIZE,
    TOTAL_CHUNK_SIZE,
};
use crate::scene::terrain::Terrain;

verus! {

/// The number of vertices that 16-bit indices can tell apart.
pub const MAX_VERTICES: usize = 65536;

/// A mesh: vertices, and indices that name them three by three.
#[derive(Clone, Debug)]
pub struct Mesh<V> {
    pub verts: Vec<V>,
    pub indices: Vec<u16>,
}

impl<V> Default for Mesh<V> {
    /// A mesh without vertices.
    fn default() -> (mesh: Self)
        ensures
            mesh.verts@ == Seq::<V>::empty(),
            mesh.indices@ == Seq::<u16>::empty(),
    {
        Self { verts: Vec::new(), indices: Vec::new() }
    }
}

/// Why a mesh could not be built.
#[derive(Copy, Clone, Debug, PartialEq, Eq, Structural)]
pub enum MeshError {
    /// The faces to draw have more vertices than 16-bit indices can name.
    TooManyVertices,
}

/// The vertices of a run of quads: four for each, in order.
pub open spec fn quad_verts(quads: Seq<Quad>) -> Seq<BlockVertex> {
    Seq::new(4 * quads.len(), |i: int| quads[i / 4].vertices[i % 4])
}

/// The indices of a run of `count` quads whose first vertex has the number
/// `base`: six for each quad, two triangles over its four vertices.
pub open spec fn quad_indices(base: int, count: int) -> Seq<u16> {
    Seq::new((6 * count) as nat, |i: int| (base + 4 * (i / 6) + quad_index_offset(i % 6)) as u16)
}

/// Of the first `n` faces of a block, the quads of those that are marked in
/// `visible`. A block of air has none.
pub open spec fn block_quads(block: Block, visible: Seq<bool>, n: int) -> Seq<Quad>
    decreases n,
{
    if n <= 0 {
        Seq::empty()
    } else if block.material_type != MaterialType::AIR && visible[n - 1] {
        block_quads(block, visible, n - 1).push(block.quads[n - 1])
    } else {
        block_quads(block, visible, n - 1)
    }
}

/// Whether the `k`-th face of the block at `(x, y, z)` can be seen.
///
/// The face looks at the place one step along the direction of its quad.
/// Within a terrain it is hidden if and only if
/// [`Terrain::spec_neighbor_exists`] holds of that place. For a chunk taken
/// alone it is hidden if and only if the place lies in the chunk and holds a
/// block that is not air.
pub open spec fn face_visible(
    terrain: Option<&Terrain>,
    blocks: Blocks,
    chunk_offset: [i32; 3],
    x: int,
    y: int,
    z: int,
    k: int,
) -> bool {
    let d = block_at(blocks, x, y, z).quads[k].side.spec_to_vec();
    let nx = x + d[0];
    let ny = y + d[1];
    let nz = z + d[2];
    match terrain {
        Some(t) => !t.spec_neighbor_exists(nx, ny, nz, blocks, chunk_offset),
        None => !(in_chunk(nx, ny, nz) && block_at(blocks, nx, ny, nz).material_type
            != MaterialType::AIR),
    }
}

/// For each of the six faces of the block at `(x, y, z)`, whether it can be
/// seen.
pub open spec fn face_flags(
    terrain: Option<&Terrain>,
    blocks: Blocks,
    chunk_offset: [i32; 3],
    x: int,
    y: int,
    z: int,
) -> Seq<bool> {
    Seq::new(6, |k: int| face_visible(terrain, blocks, chunk_offset, x, y, z, k))
}

/// The place of the `n`-th block in the order of meshing: `y` first, then
/// `x`, then `z`. The layers come from the bottom up; in a layer all blocks
/// of `x = 0` come by rising `z`, then those of `x = 1`, and so on.
pub open spec fn cell_x(n: int) -> int {
    (n / (CHUNK_AREA as int)) % (CHUNK_AREA as int)
}

pub open spec fn cell_z(n: int) -> int {
    n % (CHUNK_AREA as int)
}

pub open spec fn cell_y(n: int) -> int {
    n / (CHUNK_AREA as int * CHUNK_AREA as int)
}

/// The number of the block at `(x, y, z)` in the order of meshing.
pub open spec fn cell_number(x: int, y: int, z: int) -> int {
    (y * CHUNK_AREA + x) * CHUNK_AREA + z
}

/// The numbers of the blocks go through the whole chunk, each place once.
pub proof fn lemma_cell_number(x: int, y: int, z: int)
    requires
        in_chunk(x, y, z),
    ensures
        0 <= cell_number(x, y, z) < TOTAL_CHUNK_SIZE,
        cell_x(cell_number(x, y, z)) == x,
        cell_y(cell_number(x, y, z)) == y,
        cell_z(cell_number(x, y, z)) == z,
{
    assert(CHUNK_AREA == 16 && CHUNK_Y_SIZE == 100 && TOTAL_CHUNK_SIZE == 25600);
    let n = y * 256 + x * 16 + z;
    assert(n % 16 == z);
    assert(n / 16 == y * 16 + x);
    assert((n / 16) % 16 == x);
    assert(n / 256 == y);
}

/// The quads that the `n`-th block gives to the mesh.
pub open spec fn cell_quads(terrain: Option<&Terrain>, blocks: Blocks, chunk_offset: [i32; 3], n: int)
    -> Seq<Quad> {
    block_quads(
        block_at(blocks, cell_x(n), cell_y(n), cell_z(n)),
        face_flags(terrain, blocks, chunk_offset, cell_x(n), cell_y(n), cell_z(n)),
        6,
    )
}

/// The quads that the first `n` blocks give to the mesh, in order.
pub open spec fn chunk_quads(terrain: Option<&Terrain>, blocks: Blocks, chunk_offset: [i32; 3], n: int)
    -> Seq<Quad>
    decreases n,
{
    if n <= 0 {
        Seq::empty()
    } else {
        chunk_quads(terrain, blocks, chunk_offset, n - 1) + cell_quads(
            terrain,
            blocks,
            chunk_offset,
            n - 1,
        )
    }
}

/// The quads of the whole chunk.
pub open spec fn all_quads(terrain: Option<&Terrain>, blocks: Blocks, chunk_offset: [i32; 3]) -> Seq<
    Quad,
> {
    chunk_quads(terrain, blocks, chunk_offset, TOTAL_CHUNK_SIZE as int)
}

/// Whether `quad` is the quad of one of the first `n` faces of `block` that
/// is marked in `visible`.
pub open spec fn is_marked_face(block: Block, visible: Seq<bool>, n: int, quad: Quad) -> bool {
    exists|k: int| 0 <= k < n && visible[k] && #[trigger] block.quads[k] == quad
}

/// The quads that a block gives are those of its faces that are marked, and
/// no others: a block that is not air gives the quad of each marked face,
/// each quad given is that of a marked face, and a block of air gives none.
pub proof fn lemma_block_quads_are_visible_faces(block: Block, visible: Seq<bool>, n: int)
    requires
        0 <= n <= 6,
        visible.len() == 6,
    ensures
        block.material_type == MaterialType::AIR ==> block_quads(block, visible, n).len() == 0,
        forall|k: int|
            0 <= k < n && block.material_type != MaterialType::AIR && visible[k] ==> block_quads(
                block,
                visible,
                n,
            ).contains(#[trigger] block.quads[k]),
        forall|i: int|
            0 <= i < block_quads(block, visible, n).len() ==> is_marked_face(
                block,
                visible,
                n,
                #[trigger] block_quads(block, visible, n)[i],
            ),
        (forall|k: int| 0 <= k < n ==> !#[trigger] visible[k]) ==> block_quads(
            block,
            visible,
            n,
        ).len() == 0,
    decreases n,
{
    if n > 0 {
        lemma_block_quads_are_visible_faces(block, visible, n - 1);
        let rest = block_quads(block, visible, n - 1);
        let all = block_quads(block, visible, n);
        let shown = block.material_type != MaterialType::AIR && visible[n - 1];
        if shown {
            assert(all == rest.push(block.quads[n - 1]));
            assert(all[rest.len() as int] == block.quads[n - 1]);
        } else {
            assert(all == rest);
        }
        assert forall|k: int|
            0 <= k < n && block.material_type != MaterialType::AIR
                && visible[k] implies all.contains(#[trigger] block.quads[k]) by {
            if k < n - 1 {
                assert(rest.contains(block.quads[k]));
                let i = choose|i: int| 0 <= i < rest.len() && rest[i] == block.quads[k];
                assert(all[i] == block.quads[k]);
            } else {
                assert(all[rest.len() as int] == block.quads[k]);
            }
        }
        assert forall|i: int| 0 <= i < all.len() implies is_marked_face(
            block,
            visible,
            n,
            #[trigger] all[i],
        ) by {
            if i < rest.len() {
                assert(all[i] == rest[i]);
                assert(is_marked_face(block, visible, n - 1, rest[i]));
                let k = choose|k: int|
                    0 <= k < n - 1 && visible[k] && #[trigger] block.quads[k] == rest[i];
                assert(0 <= k < n && visible[k] && block.quads[k] == all[i]);
            } else {
                assert(shown);
                assert(0 <= n - 1 < n && visible[n - 1] && block.quads[n - 1] == all[i]);
            }
        }
        if forall|k: int| 0 <= k < n ==> !#[trigger] visible[k] {
            assert(!visible[n - 1]);
            assert forall|k: int| 0 <= k < n - 1 implies !#[trigger] visible[k] by {}
        }
    }
}

/// The place of every block that is numbered lies in the chunk.
pub proof fn lemma_cell_in_chunk(n: int)
    requires
        0 <= n < TOTAL_CHUNK_SIZE,
    ensures
        in_chunk(cell_x(n), cell_y(n), cell_z(n)),
        cell_number(cell_x(n), cell_y(n), cell_z(n)) == n,
{
    assert(CHUNK_AREA == 16 && CHUNK_Y_SIZE == 100 && TOTAL_CHUNK_SIZE == 25600);
    assert(0 <= n % 16 < 16);
    assert(0 <= (n / 16) % 16 < 16);
    assert(0 <= n / 256 < 100);
    assert(n / 256 == (n / 16) / 16);
    assert(n == ((n / 16) / 16 * 16 + (n / 16) % 16) * 16 + n % 16);
}

/// A chunk of nothing but air has no quads, wherever it stands.
pub proof fn lemma_air_has_no_quads(
    terrain: Option<&Terrain>,
    blocks: Blocks,
    chunk_offset: [i32; 3],
    n: int,
)
    requires
        all_air(blocks),
        0 <= n <= TOTAL_CHUNK_SIZE,
    ensures
        chunk_quads(terrain, blocks, chunk_offset, n).len() == 0,
    decreases n,
{
    if n > 0 {
        lemma_air_has_no_quads(terrain, blocks, chunk_offset, n - 1);
        let c = n - 1;
        lemma_cell_in_chunk(c);
        let block = block_at(blocks, cell_x(c), cell_y(c), cell_z(c));
        assert(block.material_type == MaterialType::AIR);
        lemma_block_quads_are_visible_faces(
            block,
            face_flags(terrain, blocks, chunk_offset, cell_x(c), cell_y(c), cell_z(c)),
            6,
        );
    }
}

/// Whether the block at `(x, y, z)` is the only block of the grid that is
/// not air.
pub open spec fn lone_block(blocks: Blocks, x: int, y: int, z: int) -> bool {
    &&& in_chunk(x, y, z)
    &&& block_at(blocks, x, y, z).material_type != MaterialType::AIR
    &&& forall|i: int, j: int, k: int|
        in_chunk(i, j, k) && !(i == x && j == y && k == z) ==> (#[trigger] block_at(
            blocks,
            i,
            j,
            k,
        )).material_type == MaterialType::AIR
}

/// A block that is not air and shows all its faces gives its six quads, in
/// their order.
pub proof fn lemma_open_block_gives_six_quads(block: Block, visible: Seq<bool>, n: int)
    requires
        0 <= n <= 6,
        visible.len() == 6,
        block.material_type != MaterialType::AIR,
        forall|k: int| 0 <= k < n ==> #[trigger] visible[k],
    ensures
        block_quads(block, visible, n) == block.quads@.take(n),
    decreases n,
{
    if n > 0 {
        lemma_open_block_gives_six_quads(block, visible, n - 1);
        assert(visible[n - 1]);
        assert(block.quads@.take(n - 1).push(block.quads[n - 1]) =~= block.quads@.take(n));
    } else {
        assert(block.quads@.take(0) =~= Seq::<Quad>::empty());
    }
}

/// A chunk of a single block, all of whose faces can be seen, has the six
/// quads of that block and no others: 24 vertices and 36 indices.
pub proof fn lemma_lone_block_has_six_quads(
    terrain: Option<&Terrain>,
    blocks: Blocks,
    chunk_offset: [i32; 3],
    x: int,
    y: int,
    z: int,
)
    requires
        lone_block(blocks, x, y, z),
        forall|k: int|
            0 <= k < 6 ==> #[trigger] face_visible(terrain, blocks, chunk_offset, x, y, z, k),
    ensures
        all_quads(terrain, blocks, chunk_offset) == block_at(blocks, x, y, z).quads@,
        all_quads(terrain, blocks, chunk_offset).len() == 6,
        quad_verts(all_quads(terrain, blocks, chunk_offset)).len() == 24,
        quad_indices(0, all_quads(terrain, blocks, chunk_offset).len() as int).len() == 36,
{
    lemma_cell_number(x, y, z);
    lemma_lone_block_quads_upto(
        terrain,
        blocks,
        chunk_offset,
        x,
        y,
        z,
        TOTAL_CHUNK_SIZE as int,
    );
}

/// The quads of the first `n` blocks of a chunk of a single block: none up
/// to that block, its six from there on.
proof fn lemma_lone_block_quads_upto(
    terrain: Option<&Terrain>,
    blocks: Blocks,
    chunk_offset: [i32; 3],
    x: int,
    y: int,
    z: int,
    n: int,
)
    requires
        lone_block(blocks, x, y, z),
        forall|k: int|
            0 <= k < 6 ==> #[trigger] face_visible(terrain, blocks, chunk_offset, x, y, z, k),
        0 <= n <= TOTAL_CHUNK_SIZE,
    ensures
        n <= cell_number(x, y, z) ==> chunk_quads(terrain, blocks, chunk_offset, n).len() == 0,
        n > cell_number(x, y, z) ==> chunk_quads(terrain, blocks, chunk_offset, n) == block_at(
            blocks,
            x,
            y,
            z,
        ).quads@,
    decreases n,
{
    if n > 0 {
        lemma_lone_block_quads_upto(terrain, blocks, chunk_offset, x, y, z, n - 1);
        let c = n - 1;
        lemma_cell_in_chunk(c);
        lemma_cell_number(x, y, z);
        let block = block_at(blocks, cell_x(c), cell_y(c), cell_z(c));
        let flags = face_flags(terrain, blocks, chunk_offset, cell_x(c), cell_y(c), cell_z(c));
        let before = chunk_quads(terrain, blocks, chunk_offset, c);
        let here = cell_quads(terrain, blocks, chunk_offset, c);
        assert(chunk_quads(terrain, blocks, chunk_offset, n) == before + here);
        if c == cell_number(x, y, z) {
            assert(cell_x(c) == x && cell_y(c) == y && cell_z(c) == z);
            assert forall|k: int| 0 <= k < 6 implies #[trigger] flags[k] by {
                assert(face_visible(terrain, blocks, chunk_offset, x, y, z, k));
            }
            lemma_open_block_gives_six_quads(block, flags, 6);
            assert(block.quads@.take(6) =~= block.quads@);
            assert(before + here =~= block.quads@);
        } else {
            assert(!(cell_x(c) == x && cell_y(c) == y && cell_z(c) == z));
            assert(block.material_type == MaterialType::AIR);
            lemma_block_quads_are_visible_faces(block, flags, 6);
            assert(here.len() == 0);
            assert(before + here =~= before);
        }
    }
}

/// Every face of the only block of a chunk taken alone can be seen.
pub proof fn lemma_lone_block_shows_its_faces(blocks: Blocks, x: int, y: int, z: int, k: int)
    requires
        lone_block(blocks, x, y, z),
        0 <= k < 6,
    ensures
        face_visible(None, blocks, [0i32, 0i32, 0i32], x, y, z, k),
{
    let d = block_at(blocks, x, y, z).quads[k].side.spec_to_vec();
    assert(d[0] != 0 || d[1] != 0 || d[2] != 0);
}

/// The quads of the first `n` blocks are a prefix of those of the first
/// `m`, for `n <= m`.
pub proof fn lemma_chunk_quads_grow(
    terrain: Option<&Terrain>,
    blocks: Blocks,
    chunk_offset: [i32; 3],
    n: int,
    m: int,
)
    requires
        0 <= n <= m,
    ensures
        chunk_quads(terrain, blocks, chunk_offset, n).len() <= chunk_quads(
            terrain,
            blocks,
            chunk_offset,
            m,
        ).len(),
        chunk_quads(terrain, blocks, chunk_offset, n).is_prefix_of(
            chunk_quads(terrain, blocks, chunk_offset, m),
        ),
    decreases m - n,
{
    if n < m {
        lemma_chunk_quads_grow(terrain, blocks, chunk_offset, n, m - 1);
    }
}

/// The blocks are numbered by `y` first, then `x`, then `z`: of two places
/// in a chunk the one with the lower `y` has the lower number, at the same
/// `y` the one with the lower `x`, and at the same `y` and `x` the one with
/// the lower `z`. So the quads of the one come before those of the other.
pub proof fn lemma_meshing_order(x1: int, y1: int, z1: int, x2: int, y2: int, z2: int)
    requires
        in_chunk(x1, y1, z1),
        in_chunk(x2, y2, z2),
    ensures
        cell_number(x1, y1, z1) < cell_number(x2, y2, z2) <==> (y1 < y2 || (y1 == y2 && (x1 < x2
            || (x1 == x2 && z1 < z2)))),
{
    assert(CHUNK_AREA == 16 && CHUNK_Y_SIZE == 100);
    assert(cell_number(x1, y1, z1) == y1 * 256 + x1 * 16 + z1);
    assert(cell_number(x2, y2, z2) == y2 * 256 + x2 * 16 + z2);
}

/// The vertices and indices of two runs of quads, one after the other, are
/// those of the two runs joined.
pub proof fn lemma_quads_concat(base: int, a: Seq<Quad>, b: Seq<Quad>)
    ensures
        quad_verts(a + b) == quad_verts(a) + quad_verts(b),
        quad_indices(base, (a + b).len() as int) == quad_indices(base, a.len() as int)
            + quad_indices(base + 4 * a.len(), b.len() as int),
{
    let va = quad_verts(a);
    let vb = quad_verts(b);
    assert forall|i: int| 0 <= i < 4 * (a + b).len() implies #[trigger] quad_verts(a + b)[i] == (va
        + vb)[i] by {
        if i < 4 * a.len() {
            assert(i / 4 < a.len());
        } else {
            assert(i / 4 >= a.len());
            assert((i - 4 * a.len()) / 4 == i / 4 - a.len());
            assert((i - 4 * a.len()) % 4 == i % 4);
        }
    }
    assert(quad_verts(a + b) =~= va + vb);
    let ia = quad_indices(base, a.len() as int);
    let ib = quad_indices(base + 4 * a.len(), b.len() as int);
    let whole = quad_indices(base, (a + b).len() as int);
    assert forall|i: int| 0 <= i < 6 * (a + b).len() implies #[trigger] whole[i] == (ia + ib)[i] by {
        if i >= 6 * a.len() {
            assert((i - 6 * a.len()) / 6 == i / 6 - a.len());
            assert((i - 6 * a.len()) % 6 == i % 6);
        }
    }
    assert(whole =~= ia + ib);
}

/// Every index of a run of quads names one of their vertices, and the
/// indices come in whole quads: six by six, hence also three by three.
pub proof fn lemma_quad_indices_closed(base: int, count: int)
    requires
        0 <= base,
        0 <= count,
        base + 4 * count <= MAX_VERTICES,
    ensures
        quad_indices(base, count).len() == 6 * count,
        quad_indices(base, count).len() % 6 == 0,
        quad_indices(base, count).len() % 3 == 0,
        forall|i: int|
            0 <= i < 6 * count ==> base <= #[trigger] quad_indices(base, count)[i] < base + 4
                * count,
{
    assert forall|i: int| 0 <= i < 6 * count implies base <= #[trigger] quad_indices(base, count)[i]
        < base + 4 * count by {
        assert(0 <= i / 6 < count);
        assert(0 <= quad_index_offset(i % 6) <= 3);
    }
}

impl<V> Mesh<V> {
    /// Whether every index names a vertex of the mesh, and the indices
    /// come in whole triangles and in whole quads of two triangles.
    pub open spec fn closed(self) -> bool {
        &&& self.indices@.len() % 3 == 0
        &&& self.indices@.len() % 6 == 0
        &&& forall|i: int|
            0 <= i < self.indices@.len() ==> (#[trigger] self.indices@[i]) < self.verts@.len()
    }

    /// A mesh without vertices.
    pub fn new() -> (mesh: Self)
        ensures
            mesh.verts@ == Seq::<V>::empty(),
            mesh.indices@ == Seq::<u16>::empty(),
    {
        Self { verts: Vec::new(), indices: Vec::new() }
    }

    /// Whether there is nothing to draw: the mesh has no vertices or no
    /// indices.
    pub fn is_empty(&self) -> (empty: bool)
        ensures
            empty == (self.verts@.len() == 0 || self.indices@.len() == 0),
    {
        self.verts.len() == 0 || self.indices.len() == 0
    }

    /// Empties the mesh: it has neither vertices nor indices afterwards, and
    /// so is closed. The memory of both is kept for the next ones.
    pub fn clear(&mut self)
        ensures
            final(self).verts@ == Seq::<V>::empty(),
            final(self).indices@ == Seq::<u16>::empty(),
            final(self).closed(),
    {
        self.verts.clear();
        self.indices.clear();
    }

    /// The vertices of the mesh.
    pub fn vertices(&self) -> (verts: &[V])
        ensures
            verts@ == self.verts@,
    {
        self.verts.as_slice()
    }

    /// Appends a vertex.
    pub fn push(&mut self, vert: V)
        ensures
            final(self).verts@ == old(self).verts@.push(vert),
            final(self).indices@ == old(self).indices@,
    {
        self.verts.push(vert);
    }

    /// Appends indices.
    pub fn push_indices(&mut self, indices: &[u16])
        ensures
            final(self).indices@ == old(self).indices@ + indices@,
            final(self).verts@ == old(self).verts@,
    {
        let mut i: usize = 0;
        while i < indices.len()
            invariant
                i <= indices@.len(),
                self.indices@ == old(self).indices@ + indices@.take(i as int),
                self.verts@ == old(self).verts@,
            decreases indices@.len() - i,
        {
            self.indices.push(indices[i]);
            assert(indices@.take(i as int).push(indices@[i as int]) =~= indices@.take(i as int + 1));
            i += 1;
        }
        assert(indices@.take(i as int) =~= indices@);
    }

    /// The indices of the mesh.
    pub fn indices(&self) -> (indices: &[u16])
        ensures
            indices@ == self.indices@,
    {
        self.indices.as_slice()
    }

    /// An iterator over the vertices.
    pub fn iter_verts(&self) -> (iter: std::slice::Iter<'_, V>)
        ensures
            iter.remaining() == self.verts@.as_ref(),
    {
        self.verts.as_slice().iter()
    }

    /// An iterator over a copy of the indices.
    pub fn iter_indices(&self) -> (iter: std::vec::IntoIter<u16>)
        ensures
            iter.remaining() == self.indices@,
    {
        let mut copy: Vec<u16> = Vec::new();
        let mut i: usize = 0;
        while i < self.indices.len()
            invariant
                i <= self.indices@.len(),
                copy@ == self.indices@.take(i as int),
            decreases self.indices@.len() - i,
        {
            copy.push(self.indices[i]);
            assert(self.indices@.take(i as int).push(self.indices@[i as int])
                =~= self.indices@.take(i as int + 1));
            i += 1;
        }
        assert(self.indices@.take(i as int) =~= self.indices@);
        copy.into_iter()
    }
}

/// The place of the `n`-th block in the order of meshing.
fn cell_place(n: usize) -> (place: (usize, usize, usize))
    requires
        n < TOTAL_CHUNK_SIZE,
    ensures
        place.0 == cell_x(n as int),
        place.1 == cell_y(n as int),
        place.2 == cell_z(n as int),
        in_chunk(place.0 as int, place.1 as int, place.2 as int),
{
    assert(CHUNK_AREA == 16 && CHUNK_Y_SIZE == 100 && TOTAL_CHUNK_SIZE == 25600);
    let z: usize = n % CHUNK_AREA;
    let x: usize = (n / CHUNK_AREA) % CHUNK_AREA;
    let y: usize = n / (CHUNK_AREA * CHUNK_AREA);
    assert(y < 100) by {
        assert(n < 25600);
        assert(y == n / 256);
    }
    (x, y, z)
}

/// For each face of the block at `(x, y, z)`, whether it can be seen.
fn visible_faces(
    terrain: Option<&Terrain>,
    blocks: &Blocks,
    chunk_offset: &[i32; 3],
    x: usize,
    y: usize,
    z: usize,
) -> (visible: [bool; 6])
    requires
        grid_wf(*blocks),
        in_chunk(x as int, y as int, z as int),
        terrain matches Some(t) ==> t.wf(),
    ensures
        visible@ == face_flags(terrain, *blocks, *chunk_offset, x as int, y as int, z as int),
{
    assert(layer_wf(blocks@[y as int], y as int));
    let block: Block = blocks[y][x][z];
    let mut visible: [bool; 6] = [false, false, false, false, false, false];
    let mut k: usize = 0;
    while k < 6
        invariant
            k <= 6,
            grid_wf(*blocks),
            in_chunk(x as int, y as int, z as int),
            terrain matches Some(t) ==> t.wf(),
            block == block_at(*blocks, x as int, y as int, z as int),
            forall|j: int|
                0 <= j < k ==> #[trigger] visible[j] == face_visible(
                    terrain,
                    *blocks,
                    *chunk_offset,
                    x as int,
                    y as int,
                    z as int,
                    j,
                ),
        decreases 6 - k,
    {
        let d = block.quads[k].side.to_vec();
        assert(-1 <= d[0] <= 1 && -1 <= d[1] <= 1 && -1 <= d[2] <= 1);
        let neighbor_pos: [i32; 3] = [x as i32 + d[0], y as i32 + d[1], z as i32 + d[2]];
        let hidden = match terrain {
            Some(t) => t.neighbor_exists(&neighbor_pos, blocks, chunk_offset),
            None => {
                if pos_in_chunk_bounds(neighbor_pos) {
                    let ny: usize = neighbor_pos[1] as usize;
                    assert(layer_wf(blocks@[ny as int], ny as int));
                    let neighbor: Block = blocks[ny][neighbor_pos[0] as usize][neighbor_pos[2] as usize];
                    neighbor.material_type != MaterialType::AIR
                } else {
                    false
                }
            },
        };
        visible[k] = !hidden;
        k += 1;
    }
    assert(visible@ =~= face_flags(terrain, *blocks, *chunk_offset, x as int, y as int, z as int));
    visible
}

impl Mesh<BlockVertex> {
    /// Appends the quads of the faces of `block` that are marked in
    /// `visible`, if their vertices can still be named. The first vertex of
    /// the mesh has the number `base`.
    fn push_block(&mut self, block: &Block, visible: &[bool; 6], base: usize) -> (pushed: bool)
        requires
            base + old(self).verts@.len() <= MAX_VERTICES,
        ensures
            pushed <==> base + old(self).verts@.len() + 4 * block_quads(*block, visible@, 6).len()
                <= MAX_VERTICES,
            pushed ==> final(self).verts@ == old(self).verts@ + quad_verts(
                block_quads(*block, visible@, 6),
            ),
            pushed ==> final(self).indices@ == old(self).indices@ + quad_indices(
                base + old(self).verts@.len(),
                block_quads(*block, visible@, 6).len() as int,
            ),
            !pushed ==> final(self).verts@ == old(self).verts@,
            !pushed ==> final(self).indices@ == old(self).indices@,
    {
        let ghost quads = block_quads(*block, visible@, 6);
        let first: usize = base + self.verts.len();
        let mut count: usize = 0;
        let mut k: usize = 0;
        while k < 6
            invariant
                k <= 6,
                count == block_quads(*block, visible@, k as int).len(),
                count <= k,
            decreases 6 - k,
        {
            if block.material_type != MaterialType::AIR && visible[k] {
                count += 1;
            }
            k += 1;
        }
        if first + 4 * count > MAX_VERTICES {
            return false;
        }
        let mut quad_counter: u16 = 0;
        k = 0;
        while k < 6
            invariant
                k <= 6,
                quads == block_quads(*block, visible@, 6),
                first == base + old(self).verts@.len(),
                first + 4 * quads.len() <= MAX_VERTICES,
                quad_counter == block_quads(*block, visible@, k as int).len(),
                quad_counter <= quads.len(),
                self.verts@ == old(self).verts@ + quad_verts(block_quads(*block, visible@, k as int)),
                self.indices@ == old(self).indices@ + quad_indices(
                    first as int,
                    quad_counter as int,
                ),
            decreases 6 - k,
        {
            proof {
                lemma_block_quads_grow(*block, visible@, k as int + 1, 6);
            }
            if block.material_type != MaterialType::AIR && visible[k] {
                let quad: Quad = block.quads[k];
                let ghost done = block_quads(*block, visible@, k as int);
                let ghost verts_before = self.verts@;
                let ghost indices_before = self.indices@;
                let indices = quad.get_indices(quad_counter);
                self.verts.push(quad.vertices[0]);
                self.verts.push(quad.vertices[1]);
                self.verts.push(quad.vertices[2]);
                self.verts.push(quad.vertices[3]);
                let ghost verts_after = self.verts@;
                let mut m: usize = 0;
                while m < 6
                    invariant
                        m <= 6,
                        self.verts@ == verts_after,
                        first + 4 * quad_counter + 4 <= MAX_VERTICES,
                        forall|j: int|
                            0 <= j < 6 ==> #[trigger] indices[j] == 4 * quad_counter
                                + quad_index_offset(j),
                        self.indices@ == indices_before + Seq::new(
                            m as nat,
                            |j: int| (first + 4 * quad_counter + quad_index_offset(j)) as u16,
                        ),
                    decreases 6 - m,
                {
                    self.indices.push(indices[m] + first as u16);
                    assert(self.indices@ =~= indices_before + Seq::new(
                        (m + 1) as nat,
                        |j: int| (first + 4 * quad_counter + quad_index_offset(j)) as u16,
                    ));
                    m += 1;
                }
                proof {
                    let one = Seq::<Quad>::empty().push(quad);
                    assert(done.push(quad) =~= done + one);
                    lemma_quads_concat(first as int, done, one);
                    assert(quad_verts(one) =~= seq![
                        quad.vertices[0],
                        quad.vertices[1],
                        quad.vertices[2],
                        quad.vertices[3],
                    ]);
                    let four = seq![
                        quad.vertices[0],
                        quad.vertices[1],
                        quad.vertices[2],
                        quad.vertices[3],
                    ];
                    assert(verts_after =~= verts_before + four);
                    assert(self.verts@ =~= verts_before + quad_verts(one));
                    assert(quad_indices(first + 4 * done.len(), 1) =~= Seq::new(
                        6,
                        |j: int| (first + 4 * quad_counter + quad_index_offset(j)) as u16,
                    ));
                }
                quad_counter += 1;
            }
            k += 1;
        }
        true
    }

    /// The mesh of the faces of a chunk that can be seen, or nothing if
    /// their vertices cannot all be named. The first vertex of the mesh has
    /// the number `base`.
    pub fn build(terrain: Option<&Terrain>, blocks: &Blocks, chunk_offset: &[i32; 3], base: usize) -> (mesh: Option<Self>)
        requires
            grid_wf(*blocks),
            terrain matches Some(t) ==> t.wf(),
            base <= MAX_VERTICES,
        ensures
            mesh is Some <==> base + 4 * all_quads(terrain, *blocks, *chunk_offset).len()
                <= MAX_VERTICES,
            mesh matches Some(m) ==> {
                &&& m.verts@ == quad_verts(all_quads(terrain, *blocks, *chunk_offset))
                &&& m.indices@ == quad_indices(
                    base as int,
                    all_quads(terrain, *blocks, *chunk_offset).len() as int,
                )
            },
    {
        let mut mesh: Self = Mesh::new();
        let mut n: usize = 0;
        assert(mesh.verts@ =~= quad_verts(chunk_quads(terrain, *blocks, *chunk_offset, 0)));
        assert(mesh.indices@ =~= quad_indices(base as int, 0));
        while n < TOTAL_CHUNK_SIZE
            invariant
                n <= TOTAL_CHUNK_SIZE,
                grid_wf(*blocks),
                terrain matches Some(t) ==> t.wf(),
                base + mesh.verts@.len() <= MAX_VERTICES,
                mesh.verts@ == quad_verts(chunk_quads(terrain, *blocks, *chunk_offset, n as int)),
                mesh.indices@ == quad_indices(
                    base as int,
                    chunk_quads(terrain, *blocks, *chunk_offset, n as int).len() as int,
                ),
            decreases TOTAL_CHUNK_SIZE - n,
        {
            let (x, y, z) = cell_place(n);
            assert(layer_wf(blocks@[y as int], y as int));
            let block: Block = blocks[y][x][z];
            let visible = visible_faces(terrain, blocks, chunk_offset, x, y, z);
            let ghost done = chunk_quads(terrain, *blocks, *chunk_offset, n as int);
            let ghost cell = cell_quads(terrain, *blocks, *chunk_offset, n as int);
            let pushed = mesh.push_block(&block, &visible, base);
            proof {
                assert(chunk_quads(terrain, *blocks, *chunk_offset, n as int + 1) == done + cell);
                lemma_quads_concat(base as int, done, cell);
            }
            if !pushed {
                proof {
                    lemma_chunk_quads_grow(
                        terrain,
                        *blocks,
                        *chunk_offset,
                        n as int + 1,
                        TOTAL_CHUNK_SIZE as int,
                    );
                }
                return None;
            }
            n += 1;
        }
        Some(mesh)
    }
}

/// The quads of a chunk taken alone: every face at the border of the chunk
/// counts as one that can be seen.
pub open spec fn lone_quads(blocks: Blocks) -> Seq<Quad> {
    all_quads(None, blocks, [0i32, 0i32, 0i32])
}

/// Whether a grid holds nothing but air.
pub open spec fn all_air(blocks: Blocks) -> bool {
    forall|x: int, y: int, z: int|
        in_chunk(x, y, z) ==> (#[trigger] block_at(blocks, x, y, z)).material_type
            == MaterialType::AIR
}

impl Mesh<BlockVertex> {
    /// The mesh of a chunk taken alone, or nothing if the chunk holds
    /// nothing but air or its faces have too many vertices.
    pub fn from(blocks: &Blocks) -> (mesh: Option<Self>)
        requires
            grid_wf(*blocks),
        ensures
            mesh is Some <==> !all_air(*blocks) && 4 * lone_quads(*blocks).len() <= MAX_VERTICES,
            mesh matches Some(m) ==> {
                &&& m.verts@ == quad_verts(lone_quads(*blocks))
                &&& m.indices@ == quad_indices(0, lone_quads(*blocks).len() as int)
                &&& m.closed()
            },
    {
        let mut mesh: Self = Mesh::new();
        let mut found: bool = false;
        let mut n: usize = 0;
        while n < TOTAL_CHUNK_SIZE && !found
            invariant
                n <= TOTAL_CHUNK_SIZE,
                grid_wf(*blocks),
                !found ==> forall|i: int|
                    0 <= i < n ==> (#[trigger] block_at(*blocks, cell_x(i), cell_y(i), cell_z(i))).material_type
                        == MaterialType::AIR,
                found ==> !all_air(*blocks),
            decreases 2 * (TOTAL_CHUNK_SIZE - n) + (if found { 0int } else { 1int }),
        {
            let (x, y, z) = cell_place(n);
            assert(layer_wf(blocks@[y as int], y as int));
            let block: Block = blocks[y][x][z];
            if block.material_type != MaterialType::AIR {
                assert(in_chunk(x as int, y as int, z as int));
                assert(block_at(*blocks, x as int, y as int, z as int).material_type
                    != MaterialType::AIR);
                found = true;
            } else {
                n += 1;
            }
        }
        if !found {
            proof {
                assert forall|x: int, y: int, z: int| in_chunk(x, y, z) implies (#[trigger] block_at(
                    *blocks,
                    x,
                    y,
                    z,
                )).material_type == MaterialType::AIR by {
                    let i = cell_number(x, y, z);
                    lemma_cell_number(x, y, z);
                    assert(block_at(*blocks, cell_x(i), cell_y(i), cell_z(i)).material_type
                        == MaterialType::AIR);
                }
            }
            None
        } else {
            match mesh.push_chunk(blocks) {
                Ok(()) => Some(mesh),
                Err(_) => None,
            }
        }
    }

    /// Appends the mesh of a chunk taken alone, with indices that go on
    /// from the vertices the mesh already has. The mesh is left as it was
    /// if the new vertices can not all be named.
    pub fn push_chunk(&mut self, blocks: &Blocks) -> (result: Result<(), MeshError>)
        requires
            grid_wf(*blocks),
        ensures
            result is Ok <==> lone_quads(*blocks).len() == 0 || old(self).verts@.len() + 4
                * lone_quads(*blocks).len() <= MAX_VERTICES,
            result is Ok ==> final(self).verts@ == old(self).verts@ + quad_verts(lone_quads(*blocks)),
            result is Ok ==> final(self).indices@ == old(self).indices@ + quad_indices(
                old(self).verts@.len() as int,
                lone_quads(*blocks).len() as int,
            ),
            result is Err ==> final(self).verts@ == old(self).verts@,
            result is Err ==> final(self).indices@ == old(self).indices@,
            old(self).closed() ==> final(self).closed(),
    {
        let ghost quads = lone_quads(*blocks);
        let origin: [i32; 3] = [0, 0, 0];
        let base: usize = if self.verts.len() < MAX_VERTICES {
            self.verts.len()
        } else {
            MAX_VERTICES
        };
        match Mesh::build(None, blocks, &origin, base) {
            Some(built) => {
                let mut built = built;
                proof {
                    if quads.len() > 0 {
                        lemma_quad_indices_closed(base as int, quads.len() as int);
                    }
                }
                self.verts.append(&mut built.verts);
                self.indices.append(&mut built.indices);
                Ok(())
            },
            None => Err(MeshError::TooManyVertices),
        }
    }
}

/// The quads of the first `n` faces of a block are among those of the first
/// `m`, for `n <= m`.
pub proof fn lemma_block_quads_grow(block: Block, visible: Seq<bool>, n: int, m: int)
    requires
        0 <= n <= m,
    ensures
        block_quads(block, visible, n).len() <= block_quads(block, visible, m).len(),
    decreases m - n,
{
    if n < m {
        lemma_block_quads_grow(block, visible, n, m - 1);
    }
}

} // verus!
