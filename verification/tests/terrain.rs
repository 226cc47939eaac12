use wgpucraft::render::atlas::MaterialType;
use wgpucraft::render::mesh::MeshError;
use wgpucraft::scene::terrain::chunk::{HeightMap, CHUNK_AREA, CHUNK_Y_SIZE};
use wgpucraft::scene::terrain::{Terrain, CHUNKS_ARRAY_SIZE, CHUNKS_VIEW_SIZE};

fn flat(height: i64) -> HeightMap {
    HeightMap::new(vec![height; CHUNK_AREA * CHUNK_AREA]).unwrap()
}

fn heights_for_all(height: i64) -> Vec<Option<HeightMap>> {
    (0..CHUNKS_ARRAY_SIZE).map(|_| Some(flat(height))).collect()
}

/// A terrain around the origin with flat land of the given height in all
/// four chunks.
fn loaded(height: i64) -> Terrain {
    let mut terrain = Terrain::new();
    assert_eq!(terrain.load_empty_chunks(&heights_for_all(height)), Ok(()));
    terrain
}

fn free_slots(terrain: &Terrain) -> Vec<usize> {
    terrain.free_chunk_indices.iter().copied().collect()
}

/// Every slot is free or holds one place, never both and never twice, and
/// the chunk of a place has the offset of that place.
fn assert_well_formed(terrain: &Terrain) {
    assert!(terrain.is_well_formed());
    assert_eq!(terrain.chunks.len(), CHUNKS_ARRAY_SIZE);
    assert_eq!(terrain.chunk_indices.len(), CHUNKS_ARRAY_SIZE);
    assert_eq!(terrain.updated_indices.len(), CHUNKS_ARRAY_SIZE);
    let mut seen = vec![0; CHUNKS_ARRAY_SIZE];
    for slot in &terrain.free_chunk_indices {
        seen[*slot] += 1;
    }
    for (place, entry) in terrain.chunk_indices.iter().enumerate() {
        if let Some(slot) = entry {
            seen[*slot] += 1;
            let offset = terrain.chunks[*slot].offset;
            let dx = offset[0] - terrain.chunks_origin[0];
            let dz = offset[2] - terrain.chunks_origin[2];
            assert!(0 <= dx && dx < CHUNKS_VIEW_SIZE as i32);
            assert!(0 <= dz && dz < CHUNKS_VIEW_SIZE as i32);
            assert_eq!(offset[1], 0);
            assert_eq!(dz as usize * CHUNKS_VIEW_SIZE + dx as usize, place);
        }
    }
    assert_eq!(seen, vec![1; CHUNKS_ARRAY_SIZE]);
    assert_eq!(terrain.chunks_origin[0], terrain.center_offset[0] - 1);
    assert_eq!(terrain.chunks_origin[2], terrain.center_offset[2] - 1);
}

#[test]
fn window_sizes() {
    assert_eq!(CHUNKS_VIEW_SIZE, 2);
    assert_eq!(CHUNKS_ARRAY_SIZE, 4);
}

#[test]
fn new_terrain_holds_no_chunk() {
    let terrain = Terrain::new();
    assert_eq!(terrain.center_offset, [0, 0, 0]);
    assert_eq!(terrain.chunks_origin, [-1, 0, -1]);
    assert_eq!(terrain.chunk_indices, vec![None; 4]);
    assert_eq!(free_slots(&terrain), vec![0, 1, 2, 3]);
    assert_eq!(terrain.updated_indices, vec![false; 4]);
    assert_eq!(terrain.chunks.len(), 4);
    for chunk in &terrain.chunks {
        assert_eq!(chunk.offset, [0, 0, 0]);
        assert_eq!(chunk.blocks[0][0][0].material_type, MaterialType::DEBUG);
        assert!(chunk.mesh.verts.is_empty());
    }
    assert_well_formed(&terrain);
}

#[test]
fn first_load_fills_the_whole_window() {
    let mut terrain = Terrain::new();
    assert!(!terrain.update([0, 0, 0]));
    assert_eq!(terrain.load_empty_chunks(&heights_for_all(12)), Ok(()));
    assert_eq!(terrain.chunk_indices, vec![Some(0), Some(1), Some(2), Some(3)]);
    assert!(free_slots(&terrain).is_empty());
    let origin = terrain.chunks_origin;
    let mut covered = Vec::new();
    for entry in &terrain.chunk_indices {
        let offset = terrain.chunks[entry.unwrap()].offset;
        covered.push((offset[0] - origin[0], offset[2] - origin[2]));
    }
    assert_eq!(covered, vec![(0, 0), (1, 0), (0, 1), (1, 1)]);
    assert_eq!(terrain.chunks[0].offset, [-1, 0, -1]);
    assert_eq!(terrain.chunks[1].offset, [0, 0, -1]);
    assert_eq!(terrain.chunks[2].offset, [-1, 0, 0]);
    assert_eq!(terrain.chunks[3].offset, [0, 0, 0]);
    assert_eq!(terrain.updated_indices, vec![true; 4]);
    assert_well_formed(&terrain);
}

#[test]
fn first_load_generates_and_meshes() {
    let terrain = loaded(12);
    for chunk in &terrain.chunks {
        assert_eq!(chunk.blocks[0][3][3].material_type, MaterialType::ROCK);
        assert_eq!(chunk.blocks[11][3][3].material_type, MaterialType::DIRT);
        assert_eq!(chunk.blocks[12][3][3].material_type, MaterialType::GRASS);
        assert_eq!(chunk.blocks[13][3][3].material_type, MaterialType::AIR);
        // top and bottom, and the two walls at the rim of the window: the other two
        // are hidden by the neighbours, which were generated before any chunk was meshed
        let faces = 2 * 256 + 2 * 16 * 13;
        assert_eq!(chunk.mesh.verts.len(), 4 * faces);
        assert_eq!(chunk.mesh.indices.len(), 6 * faces);
    }
    // the blocks lie where the chunk lies
    assert_eq!(terrain.chunks[0].blocks[0][0][0].quads[1].vertices[1].pos, [-16, 0, -16]);
}

#[test]
fn load_without_heights_loads_nothing() {
    let mut terrain = Terrain::new();
    assert_eq!(terrain.load_empty_chunks(&Vec::new()), Ok(()));
    assert_eq!(terrain.chunk_indices, vec![None; 4]);
    assert_eq!(free_slots(&terrain), vec![0, 1, 2, 3]);
    assert_eq!(terrain.load_empty_chunks(&vec![None, None, None, None]), Ok(()));
    assert_eq!(terrain.chunk_indices, vec![None; 4]);
    assert_eq!(terrain.updated_indices, vec![false; 4]);
    assert_well_formed(&terrain);
}

#[test]
fn load_fills_the_places_that_have_heights() {
    let mut terrain = Terrain::new();
    let heights = vec![None, Some(flat(3)), None, Some(flat(4)), Some(flat(5))];
    assert_eq!(terrain.load_empty_chunks(&heights), Ok(()));
    assert_eq!(terrain.chunk_indices, vec![None, Some(0), None, Some(1)]);
    assert_eq!(free_slots(&terrain), vec![2, 3]);
    assert_eq!(terrain.updated_indices, vec![true, true, false, false]);
    assert_eq!(terrain.chunks[0].offset, [0, 0, -1]);
    assert_eq!(terrain.chunks[1].offset, [0, 0, 0]);
    assert_eq!(terrain.chunks[0].blocks[3][0][0].material_type, MaterialType::GRASS);
    assert_eq!(terrain.chunks[1].blocks[4][0][0].material_type, MaterialType::GRASS);
    assert_eq!(terrain.chunks[2].blocks[4][0][0].material_type, MaterialType::DEBUG);
    assert_well_formed(&terrain);
    // a second call fills the rest and leaves the first two alone
    let marker = terrain.chunks[0].mesh.verts.len();
    assert_eq!(terrain.take_updated(), vec![0, 1]);
    assert_eq!(terrain.load_empty_chunks(&heights_for_all(50)), Ok(()));
    assert_eq!(terrain.chunk_indices, vec![Some(2), Some(0), Some(3), Some(1)]);
    assert_eq!(terrain.updated_indices, vec![false, false, true, true]);
    assert_eq!(terrain.chunks[0].blocks[3][0][0].material_type, MaterialType::GRASS);
    assert_eq!(terrain.chunks[0].mesh.verts.len(), marker);
    assert_eq!(terrain.chunks[2].blocks[50][0][0].material_type, MaterialType::GRASS);
    assert_well_formed(&terrain);
}

#[test]
fn load_on_a_full_window_changes_nothing() {
    let mut terrain = loaded(12);
    terrain.take_updated();
    assert_eq!(terrain.load_empty_chunks(&heights_for_all(30)), Ok(()));
    assert_eq!(terrain.updated_indices, vec![false; 4]);
    assert_eq!(terrain.chunks[0].blocks[12][0][0].material_type, MaterialType::GRASS);
}

#[test]
fn moving_by_one_chunk_releases_a_column_and_fills_one() {
    let mut terrain = loaded(12);
    assert_eq!(terrain.take_updated(), vec![0, 1, 2, 3]);
    // from the chunk (0, 0) to the chunk (1, 0)
    assert!(terrain.update([16, 30, 0]));
    assert_eq!(terrain.center_offset, [1, 0, 0]);
    assert_eq!(terrain.chunks_origin, [0, 0, -1]);
    // the chunks at x = 0 stay, now in the first column; those at x = -1 are released
    assert_eq!(terrain.chunk_indices, vec![Some(1), None, Some(3), None]);
    assert_eq!(free_slots(&terrain), vec![0, 2]);
    assert_eq!(terrain.updated_indices, vec![false; 4]);
    assert_well_formed(&terrain);
    assert_eq!(terrain.load_empty_chunks(&heights_for_all(20)), Ok(()));
    assert_eq!(terrain.chunk_indices, vec![Some(1), Some(0), Some(3), Some(2)]);
    assert!(free_slots(&terrain).is_empty());
    assert_eq!(terrain.chunks[0].offset, [1, 0, -1]);
    assert_eq!(terrain.chunks[2].offset, [1, 0, 0]);
    assert_eq!(terrain.chunks[1].offset, [0, 0, -1]);
    assert_eq!(terrain.chunks[3].offset, [0, 0, 0]);
    // the new column is generated, the old one is not generated again
    assert_eq!(terrain.chunks[0].blocks[20][0][0].material_type, MaterialType::GRASS);
    assert_eq!(terrain.chunks[2].blocks[20][0][0].material_type, MaterialType::GRASS);
    assert_eq!(terrain.chunks[1].blocks[12][0][0].material_type, MaterialType::GRASS);
    assert_eq!(terrain.chunks[3].blocks[20][0][0].material_type, MaterialType::AIR);
    assert_eq!(terrain.take_updated(), vec![0, 2]);
    assert_well_formed(&terrain);
}

#[test]
fn moving_within_a_chunk_changes_nothing() {
    let mut terrain = loaded(12);
    terrain.take_updated();
    for position in [[0, 0, 0], [15, 0, 15], [7, 99, 3], [0, -5, 15]] {
        assert!(!terrain.update(position));
        assert_eq!(terrain.center_offset, [0, 0, 0]);
        assert_eq!(terrain.chunks_origin, [-1, 0, -1]);
        assert_eq!(terrain.chunk_indices, vec![Some(0), Some(1), Some(2), Some(3)]);
        assert!(free_slots(&terrain).is_empty());
        assert_eq!(terrain.updated_indices, vec![false; 4]);
    }
    assert!(terrain.update([16, 0, 0]));
    for position in [[16, 0, 0], [31, 0, 15], [20, 0, 1]] {
        assert!(!terrain.update(position));
        assert_eq!(terrain.chunks_origin, [0, 0, -1]);
        assert_eq!(free_slots(&terrain), vec![0, 2]);
    }
}

#[test]
fn moving_diagonally_keeps_one_chunk() {
    let mut terrain = loaded(12);
    assert!(terrain.update([-1, 0, -1]));
    assert_eq!(terrain.center_offset, [-1, 0, -1]);
    assert_eq!(terrain.chunks_origin, [-2, 0, -2]);
    // only the chunk at (-1, -1) is still covered: it is now the last of the window
    assert_eq!(terrain.chunk_indices, vec![None, None, None, Some(0)]);
    assert_eq!(free_slots(&terrain), vec![1, 2, 3]);
    assert_well_formed(&terrain);
}

#[test]
fn moving_far_releases_every_chunk() {
    let mut terrain = loaded(12);
    assert!(terrain.update([1000, 0, -1000]));
    assert_eq!(terrain.center_offset, [62, 0, -63]);
    assert_eq!(terrain.chunks_origin, [61, 0, -64]);
    assert_eq!(terrain.chunk_indices, vec![None; 4]);
    assert_eq!(free_slots(&terrain), vec![0, 1, 2, 3]);
    assert_well_formed(&terrain);
}

#[test]
fn moving_back_and_forth_recycles_the_slots() {
    let mut terrain = loaded(12);
    for step in 0..6 {
        let x = if step % 2 == 0 { 16 } else { 0 };
        assert!(terrain.update([x, 0, 0]));
        assert_well_formed(&terrain);
        assert_eq!(free_slots(&terrain).len(), 2);
        assert_eq!(terrain.load_empty_chunks(&heights_for_all(10 + step)), Ok(()));
        assert_well_formed(&terrain);
        assert!(free_slots(&terrain).is_empty());
    }
}

#[test]
fn moving_to_the_ends_of_the_world_does_not_overflow() {
    let mut terrain = Terrain::new();
    assert!(terrain.update([i32::MIN, 0, i32::MAX]));
    assert_eq!(terrain.center_offset, [-134217728, 0, 134217727]);
    assert_eq!(terrain.chunks_origin, [-134217729, 0, 134217726]);
    assert_eq!(terrain.load_empty_chunks(&heights_for_all(3)), Ok(()));
    assert_eq!(terrain.chunks[0].offset, [-134217729, 0, 134217726]);
    assert_eq!(
        terrain.chunks[0].blocks[0][0][0].quads[1].vertices[1].pos,
        [-2147483664, 0, 2147483616]
    );
    assert_well_formed(&terrain);
}

#[test]
fn world_positions_belong_to_chunks() {
    assert_eq!(Terrain::world_pos_to_chunk_offset([0, 0, 0]), [0, 0, 0]);
    assert_eq!(Terrain::world_pos_to_chunk_offset([15, 7, 16]), [0, 0, 1]);
    assert_eq!(Terrain::world_pos_to_chunk_offset([-1, 50, -16]), [-1, 0, -1]);
    assert_eq!(Terrain::world_pos_to_chunk_offset([-17, -3, 31]), [-2, 0, 1]);
    assert_eq!(Terrain::world_pos_to_chunk_offset([32, 1000, -32]), [2, 0, -2]);
    assert_eq!(
        Terrain::world_pos_to_chunk_offset([i64::MIN, 0, i64::MAX]),
        [i64::MIN / 16, 0, i64::MAX / 16]
    );
}

#[test]
fn places_of_the_window_have_offsets() {
    let mut terrain = Terrain::new();
    assert_eq!(terrain.get_chunk_offset(0), [-1, 0, -1]);
    assert_eq!(terrain.get_chunk_offset(1), [0, 0, -1]);
    assert_eq!(terrain.get_chunk_offset(2), [-1, 0, 0]);
    assert_eq!(terrain.get_chunk_offset(3), [0, 0, 0]);
    terrain.update([40, 0, -40]);
    assert_eq!(terrain.get_chunk_offset(0), [1, 0, -4]);
    assert_eq!(terrain.get_chunk_offset(3), [2, 0, -3]);
    for place in 0..CHUNKS_ARRAY_SIZE {
        let offset = terrain.get_chunk_offset(place);
        let offset = [offset[0] as i64, offset[1] as i64, offset[2] as i64];
        assert!(terrain.chunk_in_bounds(offset));
        assert_eq!(terrain.get_chunk_world_index(offset), place);
    }
}

#[test]
fn chunks_inside_and_outside_the_window() {
    let terrain = Terrain::new();
    assert!(terrain.chunk_in_bounds([-1, 0, -1]));
    assert!(terrain.chunk_in_bounds([0, 0, 0]));
    assert!(terrain.chunk_in_bounds([0, 77, -1]));
    assert!(!terrain.chunk_in_bounds([1, 0, 0]));
    assert!(!terrain.chunk_in_bounds([0, 0, 1]));
    assert!(!terrain.chunk_in_bounds([-2, 0, 0]));
    assert!(!terrain.chunk_in_bounds([0, 0, -2]));
    assert!(!terrain.chunk_in_bounds([i64::MAX, 0, i64::MIN]));
    assert_eq!(terrain.get_chunk_world_index([-1, 0, -1]), 0);
    assert_eq!(terrain.get_chunk_world_index([0, 0, -1]), 1);
    assert_eq!(terrain.get_chunk_world_index([-1, 0, 0]), 2);
    assert_eq!(terrain.get_chunk_world_index([0, 0, 0]), 3);
}

#[test]
fn chunks_are_found_by_their_offset() {
    let mut terrain = Terrain::new();
    assert_eq!(terrain.get_chunk_at_offset([0, 0, 0]), None);
    let heights = vec![None, None, None, Some(flat(3))];
    terrain.load_empty_chunks(&heights).unwrap();
    assert_eq!(terrain.get_chunk_at_offset([0, 0, 0]), Some(0));
    assert_eq!(terrain.get_chunk_at_offset([-1, 0, 0]), None);
    assert_eq!(terrain.get_chunk_at_offset([1, 0, 0]), None);
    assert_eq!(terrain.get_chunk_at_offset([i64::MIN, 0, 0]), None);
}

#[test]
fn acquire_gives_the_slot_that_waited_longest() {
    let mut terrain = Terrain::new();
    assert_eq!(terrain.acquire_slot(2), Some(0));
    assert_eq!(terrain.chunk_indices, vec![None, None, Some(0), None]);
    assert_eq!(free_slots(&terrain), vec![1, 2, 3]);
    assert_eq!(terrain.chunks[0].offset, [-1, 0, 0]);
    assert_well_formed(&terrain);
    assert_eq!(terrain.acquire_slot(0), Some(1));
    assert_eq!(terrain.acquire_slot(3), Some(2));
    assert_eq!(terrain.acquire_slot(1), Some(3));
    assert_eq!(terrain.chunk_indices, vec![Some(1), Some(3), Some(0), Some(2)]);
    assert!(free_slots(&terrain).is_empty());
    assert_well_formed(&terrain);
}

#[test]
fn release_puts_the_slot_at_the_end_of_the_free_list() {
    let mut terrain = loaded(5);
    assert_eq!(terrain.release_slot(2), Some(2));
    assert_eq!(terrain.release_slot(0), Some(0));
    assert_eq!(terrain.chunk_indices, vec![None, Some(1), None, Some(3)]);
    assert_eq!(free_slots(&terrain), vec![2, 0]);
    assert_well_formed(&terrain);
    assert_eq!(terrain.release_slot(2), None);
    assert_eq!(free_slots(&terrain), vec![2, 0]);
    assert_eq!(terrain.acquire_slot(0), Some(2));
    assert_eq!(terrain.chunks[2].offset, [-1, 0, -1]);
    assert_well_formed(&terrain);
}

#[test]
fn take_updated_hands_each_slot_out_once() {
    let mut terrain = Terrain::new();
    assert_eq!(terrain.take_updated(), Vec::<usize>::new());
    terrain.load_empty_chunks(&vec![None, Some(flat(3)), None, Some(flat(3))]).unwrap();
    assert_eq!(terrain.take_updated(), vec![0, 1]);
    assert_eq!(terrain.take_updated(), Vec::<usize>::new());
    assert_eq!(terrain.updated_indices, vec![false; 4]);
}

#[test]
fn neighbours_inside_the_chunk() {
    let terrain = loaded(12);
    let chunk = &terrain.chunks[3];
    assert!(terrain.neighbor_exists(&[5, 12, 5], &chunk.blocks, &chunk.offset));
    assert!(terrain.neighbor_exists(&[5, 0, 5], &chunk.blocks, &chunk.offset));
    assert!(!terrain.neighbor_exists(&[5, 13, 5], &chunk.blocks, &chunk.offset));
}

#[test]
fn neighbours_above_and_below_the_world() {
    let terrain = loaded(200);
    let chunk = &terrain.chunks[3];
    assert!(terrain.neighbor_exists(&[5, 99, 5], &chunk.blocks, &chunk.offset));
    assert!(!terrain.neighbor_exists(&[5, 100, 5], &chunk.blocks, &chunk.offset));
    assert!(!terrain.neighbor_exists(&[5, -1, 5], &chunk.blocks, &chunk.offset));
    assert!(!terrain.neighbor_exists(&[-1, -1, 5], &chunk.blocks, &chunk.offset));
}

#[test]
fn neighbours_in_the_next_chunk() {
    let mut terrain = Terrain::new();
    // the chunk at (-1, 0) has land up to 30, the chunk at (0, 0) up to 10
    let heights = vec![None, None, Some(flat(30)), Some(flat(10))];
    terrain.load_empty_chunks(&heights).unwrap();
    let low = &terrain.chunks[1];
    let high = &terrain.chunks[0];
    assert_eq!(low.offset, [0, 0, 0]);
    assert_eq!(high.offset, [-1, 0, 0]);
    // seen from the low chunk, the place one step to the left is in the high chunk
    assert!(terrain.neighbor_exists(&[-1, 20, 3], &low.blocks, &low.offset));
    assert!(terrain.neighbor_exists(&[-1, 30, 3], &low.blocks, &low.offset));
    assert!(!terrain.neighbor_exists(&[-1, 31, 3], &low.blocks, &low.offset));
    // and the other way round
    assert!(terrain.neighbor_exists(&[16, 10, 3], &high.blocks, &high.offset));
    assert!(!terrain.neighbor_exists(&[16, 11, 3], &high.blocks, &high.offset));
    // the chunks at z = -1 are not loaded, and those beyond the window never are
    assert!(!terrain.neighbor_exists(&[3, 5, -1], &low.blocks, &low.offset));
    assert!(!terrain.neighbor_exists(&[16, 5, 3], &low.blocks, &low.offset));
    assert!(!terrain.neighbor_exists(&[-1, 5, 3], &high.blocks, &high.offset));
}

#[test]
fn faces_between_loaded_chunks_are_hidden_from_both_sides() {
    let mut terrain = Terrain::new();
    let heights = vec![None, None, Some(flat(30)), Some(flat(10))];
    terrain.load_empty_chunks(&heights).unwrap();
    let high = &terrain.chunks[0];
    let low = &terrain.chunks[1];
    // high: top and bottom, three walls 31 high at unloaded chunks, and the wall at the
    // low chunk from 11 to 30
    let high_faces = 2 * 256 + 3 * 16 * 31 + 16 * 20;
    assert_eq!(high.mesh.verts.len(), 4 * high_faces);
    // low: top and bottom, three walls 11 high; the wall at the high chunk is hidden
    let low_faces = 2 * 256 + 3 * 16 * 11;
    assert_eq!(low.mesh.verts.len(), 4 * low_faces);
    // no face of either mesh lies in the plane between them below the lower land
    for mesh in [&high.mesh, &low.mesh] {
        for quad in 0..mesh.verts.len() / 4 {
            let corners = &mesh.verts[4 * quad..4 * quad + 4];
            let between = corners.iter().all(|v| v.pos[0] == 0);
            let below = corners.iter().all(|v| v.pos[1] <= 11);
            assert!(!(between && below));
        }
    }
}

#[test]
fn mesh_of_a_slot_is_the_mesh_of_its_chunk() {
    let terrain = loaded(12);
    for slot in 0..CHUNKS_ARRAY_SIZE {
        let mesh = terrain.mesh_slot(slot).unwrap();
        assert_eq!(mesh.indices, terrain.chunks[slot].mesh.indices);
        assert_eq!(mesh.verts.len(), terrain.chunks[slot].mesh.verts.len());
        for i in 0..mesh.verts.len() {
            assert_eq!(mesh.verts[i].pos, terrain.chunks[slot].mesh.verts[i].pos);
        }
    }
}

#[test]
fn chunk_with_too_many_faces_gets_an_empty_mesh() {
    let mut heights = Vec::new();
    for x in 0..CHUNK_AREA {
        for z in 0..CHUNK_AREA {
            heights.push(if (x + z) % 2 == 0 { CHUNK_Y_SIZE as i64 - 1 } else { 0 });
        }
    }
    let rugged = HeightMap::new(heights).unwrap();
    let mut terrain = Terrain::new();
    let heights = vec![Some(flat(5)), None, None, Some(rugged)];
    assert_eq!(terrain.load_empty_chunks(&heights), Err(MeshError::TooManyVertices));
    assert_eq!(terrain.chunk_indices, vec![Some(0), None, None, Some(1)]);
    assert!(terrain.chunks[0].mesh.verts.len() > 0);
    assert_eq!(terrain.chunks[1].mesh.verts.len(), 0);
    assert_eq!(terrain.chunks[1].mesh.indices.len(), 0);
    assert_eq!(terrain.chunks[1].blocks[99][0][0].material_type, MaterialType::GRASS);
    assert_eq!(terrain.updated_indices, vec![true, true, false, false]);
    assert_well_formed(&terrain);
}

#[test]
fn terrain_with_a_slot_twice_in_the_free_list_is_not_well_formed() {
    let mut terrain = Terrain::new();
    assert!(terrain.is_well_formed());
    terrain.free_chunk_indices.push_back(0);
    assert!(!terrain.is_well_formed());
}

#[test]
fn terrain_with_a_lost_slot_is_not_well_formed() {
    let mut terrain = Terrain::new();
    terrain.free_chunk_indices.pop_back();
    assert!(!terrain.is_well_formed());
    terrain.chunk_indices[0] = Some(3);
    terrain.chunks[3].offset = [-1, 0, -1];
    assert!(terrain.is_well_formed());
}

#[test]
fn terrain_with_a_slot_both_free_and_held_is_not_well_formed() {
    let mut terrain = Terrain::new();
    terrain.chunk_indices[3] = Some(0);
    assert!(!terrain.is_well_formed());
}

#[test]
fn terrain_with_a_chunk_at_the_wrong_place_is_not_well_formed() {
    let mut terrain = loaded(3);
    assert!(terrain.is_well_formed());
    terrain.chunks[1].offset = [5, 0, 5];
    assert!(!terrain.is_well_formed());
    terrain.chunks[1].offset = [0, 1, -1];
    assert!(!terrain.is_well_formed());
    terrain.chunks[1].offset = [0, 0, -1];
    assert!(terrain.is_well_formed());
    terrain.chunk_indices.swap(0, 1);
    assert!(!terrain.is_well_formed());
}

#[test]
fn terrain_with_a_window_off_its_centre_is_not_well_formed() {
    let mut terrain = Terrain::new();
    terrain.chunks_origin = [0, 0, -1];
    assert!(!terrain.is_well_formed());
    terrain.center_offset = [1, 0, 0];
    assert!(terrain.is_well_formed());
    terrain.center_offset = [1, 1, 0];
    assert!(!terrain.is_well_formed());
    terrain.center_offset = [i32::MAX, 0, 0];
    terrain.chunks_origin = [i32::MAX - 1, 0, -1];
    assert!(!terrain.is_well_formed());
}

#[test]
fn terrain_of_the_wrong_size_is_not_well_formed() {
    let mut terrain = Terrain::new();
    terrain.updated_indices.push(false);
    assert!(!terrain.is_well_formed());
    let mut terrain = Terrain::new();
    terrain.chunks.pop();
    assert!(!terrain.is_well_formed());
    let mut terrain = Terrain::new();
    terrain.free_chunk_indices.push_back(4);
    assert!(!terrain.is_well_formed());
    let mut terrain = Terrain::new();
    terrain.chunks[2].blocks[7].pop();
    assert!(!terrain.is_well_formed());
}

#[test]
fn slots_are_free_or_held() {
    let mut terrain = Terrain::new();
    terrain.load_empty_chunks(&vec![None, Some(flat(3))]).unwrap();
    assert!(terrain.slot_is_mapped(0));
    assert!(!terrain.slot_is_free(0));
    for slot in 1..4 {
        assert!(!terrain.slot_is_mapped(slot));
        assert!(terrain.slot_is_free(slot));
    }
    assert!(!terrain.slot_is_free(4));
    assert!(!terrain.slot_is_mapped(4));
}

#[test]
fn neighbours_are_read_at_their_own_level() {
    let mut terrain = Terrain::new();
    let heights = vec![None, None, Some(flat(30)), Some(flat(10))];
    terrain.load_empty_chunks(&heights).unwrap();
    let low = &terrain.chunks[1];
    // chunks are not stacked: the y of an offset does not move the level that is read
    for offset_y in [0, 1, -3, i32::MAX] {
        let offset = [0, offset_y, 0];
        assert!(terrain.neighbor_exists(&[-1, 30, 3], &low.blocks, &offset));
        assert!(!terrain.neighbor_exists(&[-1, 31, 3], &low.blocks, &offset));
        assert!(terrain.neighbor_exists(&[-1, 0, 3], &low.blocks, &offset));
        assert!(terrain.neighbor_exists(&[-1, 99, 3], &low.blocks, &offset) == false);
    }
}

#[test]
fn load_without_land_gives_water() {
    let mut terrain = Terrain::new();
    assert_eq!(terrain.load_empty_chunks(&heights_for_all(-1)), Ok(()));
    for chunk in &terrain.chunks {
        assert_eq!(chunk.blocks[0][0][0].material_type, MaterialType::WATER);
        assert_eq!(chunk.blocks[9][15][15].material_type, MaterialType::WATER);
        assert_eq!(chunk.blocks[10][15][15].material_type, MaterialType::AIR);
        // top and bottom of the water, and its two walls at the rim of the window
        let faces = 2 * 256 + 2 * 16 * 10;
        assert_eq!(chunk.mesh.verts.len(), 4 * faces);
    }
}
