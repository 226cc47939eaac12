use wgpucraft::render::atlas::MaterialType;
use wgpucraft::scene::terrain::chunk::{
    generate_chunk, generate_layer, local_pos_to_world, material_at, pos_in_chunk_bounds, Chunk,
    HeightMap, CHUNK_AREA, CHUNK_Y_SIZE, TOTAL_CHUNK_SIZE,
};
use wgpucraft::scene::terrain::validity::{grid_is_well_formed, layer_is_well_formed};
use wgpucraft::scene::terrain::LAND_LEVEL;

fn flat(height: i64) -> HeightMap {
    HeightMap::new(vec![height; CHUNK_AREA * CHUNK_AREA]).unwrap()
}

/// Column (x, z) has the height 3 + x + 2 z.
fn slope() -> HeightMap {
    let mut heights = Vec::new();
    for x in 0..CHUNK_AREA {
        for z in 0..CHUNK_AREA {
            heights.push((3 + x + 2 * z) as i64);
        }
    }
    HeightMap::new(heights).unwrap()
}

#[test]
fn chunk_sizes() {
    assert_eq!(CHUNK_Y_SIZE, 100);
    assert_eq!(CHUNK_AREA, 16);
    assert_eq!(TOTAL_CHUNK_SIZE, 25600);
    assert_eq!(LAND_LEVEL, 9);
}

#[test]
fn new_chunk_has_the_size_of_a_chunk() {
    let chunk = Chunk::new([0, 0, 0]);
    assert_eq!(chunk.blocks.len(), CHUNK_Y_SIZE);
    for layer in &chunk.blocks {
        assert_eq!(layer.len(), CHUNK_AREA);
        for row in layer {
            assert_eq!(row.len(), CHUNK_AREA);
        }
    }
}

#[test]
fn new_chunk_is_marked_up_to_the_sea_level() {
    let chunk = Chunk::new([3, 0, -2]);
    assert_eq!(chunk.offset, [3, 0, -2]);
    assert!(chunk.updated);
    assert!(chunk.mesh.verts.is_empty());
    assert!(chunk.mesh.indices.is_empty());
    for y in 0..CHUNK_Y_SIZE {
        for x in 0..CHUNK_AREA {
            for z in 0..CHUNK_AREA {
                let block = &chunk.blocks[y][x][z];
                assert_eq!(block.position, [x as i32, y as i32, z as i32]);
                let expected = if y <= LAND_LEVEL { MaterialType::DEBUG } else { MaterialType::AIR };
                assert_eq!(block.material_type, expected);
            }
        }
    }
}

#[test]
fn new_chunk_blocks_lie_in_the_world() {
    let chunk = Chunk::new([3, 0, -2]);
    let block = &chunk.blocks[5][1][2];
    // x: 1 + 3 * 16, z: 2 - 2 * 16
    assert_eq!(block.quads[1].vertices[1].pos, [49, 5, -30]);
}

#[test]
fn positions_inside_and_outside_a_chunk() {
    assert!(pos_in_chunk_bounds([0, 0, 0]));
    assert!(pos_in_chunk_bounds([15, 99, 15]));
    assert!(!pos_in_chunk_bounds([-1, 0, 0]));
    assert!(!pos_in_chunk_bounds([0, -1, 0]));
    assert!(!pos_in_chunk_bounds([0, 0, -1]));
    assert!(!pos_in_chunk_bounds([16, 0, 0]));
    assert!(!pos_in_chunk_bounds([0, 100, 0]));
    assert!(!pos_in_chunk_bounds([0, 0, 16]));
    assert!(!pos_in_chunk_bounds([i32::MIN, i32::MAX, 0]));
}

#[test]
fn local_positions_become_world_positions() {
    assert_eq!(local_pos_to_world(&[0, 0, 0], &[1, 2, 3]), [1, 2, 3]);
    assert_eq!(local_pos_to_world(&[2, 0, -1], &[1, 2, 3]), [33, 2, -13]);
    assert_eq!(local_pos_to_world(&[-1, 0, 0], &[-1, 5, 16]), [-17, 5, 16]);
    assert_eq!(local_pos_to_world(&[0, 1, 0], &[0, 0, 0]), [0, 0, 0]);
    assert_eq!(local_pos_to_world(&[3, -7, 0], &[0, 42, 0]), [48, 42, 0]);
    assert_eq!(
        local_pos_to_world(&[i32::MAX, 0, i32::MIN], &[i32::MAX, 0, i32::MIN]),
        [17 * i32::MAX as i64, 0, 17 * i32::MIN as i64]
    );
}

#[test]
fn material_above_the_land() {
    assert_eq!(material_at(5, 4), MaterialType::WATER);
    assert_eq!(material_at(9, 4), MaterialType::WATER);
    assert_eq!(material_at(10, 4), MaterialType::AIR);
    assert_eq!(material_at(99, 12), MaterialType::AIR);
    assert_eq!(material_at(13, 12), MaterialType::AIR);
}

#[test]
fn material_of_the_land() {
    assert_eq!(material_at(4, 4), MaterialType::GRASS);
    assert_eq!(material_at(12, 12), MaterialType::GRASS);
    assert_eq!(material_at(0, 4), MaterialType::ROCK);
    assert_eq!(material_at(1, 4), MaterialType::DIRT);
    assert_eq!(material_at(3, 4), MaterialType::DIRT);
}

#[test]
fn material_of_land_at_the_bottom_is_grass() {
    assert_eq!(material_at(0, 0), MaterialType::GRASS);
    assert_eq!(material_at(1, 0), MaterialType::WATER);
}

#[test]
fn material_of_a_column_without_land() {
    // the land ends below the world: water up to the sea level, air over it, no grass
    assert_eq!(material_at(0, -1), MaterialType::WATER);
    assert_eq!(material_at(5, -1), MaterialType::WATER);
    assert_eq!(material_at(9, -7), MaterialType::WATER);
    assert_eq!(material_at(10, -7), MaterialType::AIR);
    assert_eq!(material_at(0, i64::MIN), MaterialType::WATER);
    assert_eq!(material_at(99, i64::MIN), MaterialType::AIR);
    assert_eq!(material_at(usize::MAX, -1), MaterialType::AIR);
}

#[test]
fn material_of_land_over_every_level() {
    assert_eq!(material_at(0, i64::MAX), MaterialType::ROCK);
    assert_eq!(material_at(99, i64::MAX), MaterialType::DIRT);
    assert_eq!(material_at(99, 100), MaterialType::DIRT);
    assert_eq!(material_at(100, 100), MaterialType::GRASS);
    assert_eq!(material_at(101, 100), MaterialType::AIR);
}

#[test]
fn height_map_wants_one_height_for_each_column() {
    assert!(HeightMap::new(vec![0; 256]).is_some());
    assert!(HeightMap::new(vec![0; 255]).is_none());
    assert!(HeightMap::new(vec![0; 257]).is_none());
    assert!(HeightMap::new(Vec::new()).is_none());
}

#[test]
fn height_map_is_read_by_column() {
    let heights = slope();
    assert_eq!(heights.get(0, 0), 3);
    assert_eq!(heights.get(1, 0), 4);
    assert_eq!(heights.get(0, 1), 5);
    assert_eq!(heights.get(15, 15), 48);
}

#[test]
fn generate_layer_fills_one_layer() {
    let mut chunk = Chunk::new([0, 0, 0]);
    let heights = flat(12);
    generate_layer(&mut chunk.blocks[12], 12, [0, 0, 0], &heights);
    assert_eq!(chunk.blocks[12][3][4].material_type, MaterialType::GRASS);
    assert_eq!(chunk.blocks[11][3][4].material_type, MaterialType::AIR);
    assert_eq!(chunk.blocks[9][3][4].material_type, MaterialType::DEBUG);
}

#[test]
fn generate_chunk_follows_the_heights() {
    let mut chunk = Chunk::new([1, 0, 2]);
    let heights = slope();
    generate_chunk(&mut chunk.blocks, [1, 0, 2], &heights);
    for y in 0..CHUNK_Y_SIZE {
        for x in 0..CHUNK_AREA {
            for z in 0..CHUNK_AREA {
                let block = &chunk.blocks[y][x][z];
                assert_eq!(block.material_type, material_at(y, (3 + x + 2 * z) as i64));
                assert_eq!(block.position, [x as i32, y as i32, z as i32]);
                assert_eq!(block.quads[1].vertices[1].pos, [x as i64 + 16, y as i64, z as i64 + 32]);
            }
        }
    }
    // column (0, 0) has height 3
    assert_eq!(chunk.blocks[0][0][0].material_type, MaterialType::ROCK);
    assert_eq!(chunk.blocks[2][0][0].material_type, MaterialType::DIRT);
    assert_eq!(chunk.blocks[3][0][0].material_type, MaterialType::GRASS);
    assert_eq!(chunk.blocks[9][0][0].material_type, MaterialType::WATER);
    assert_eq!(chunk.blocks[10][0][0].material_type, MaterialType::AIR);
    // column (15, 15) has height 48
    assert_eq!(chunk.blocks[47][15][15].material_type, MaterialType::DIRT);
    assert_eq!(chunk.blocks[48][15][15].material_type, MaterialType::GRASS);
    assert_eq!(chunk.blocks[49][15][15].material_type, MaterialType::AIR);
}

#[test]
fn generate_chunk_texture_follows_the_material() {
    let mut chunk = Chunk::new([0, 0, 0]);
    generate_chunk(&mut chunk.blocks, [0, 0, 0], &flat(5));
    assert_eq!(chunk.blocks[5][0][0].quads[0].vertices[0].texture_coordinates, [0, 0]);
    assert_eq!(chunk.blocks[4][0][0].quads[0].vertices[0].texture_coordinates, [32, 0]);
    assert_eq!(chunk.blocks[0][0][0].quads[0].vertices[0].texture_coordinates, [16, 0]);
    assert_eq!(chunk.blocks[6][0][0].quads[0].vertices[0].texture_coordinates, [208, 0]);
}

#[test]
fn generate_chunk_twice_gives_the_same_blocks() {
    let heights = slope();
    let mut first = Chunk::new([-4, 0, 7]);
    let mut second = Chunk::new([-4, 0, 7]);
    generate_chunk(&mut first.blocks, [-4, 0, 7], &heights);
    generate_chunk(&mut second.blocks, [-4, 0, 7], &heights);
    generate_chunk(&mut second.blocks, [-4, 0, 7], &heights);
    for y in 0..CHUNK_Y_SIZE {
        for x in 0..CHUNK_AREA {
            for z in 0..CHUNK_AREA {
                let a = &first.blocks[y][x][z];
                let b = &second.blocks[y][x][z];
                assert_eq!(a.material_type, b.material_type);
                assert_eq!(a.position, b.position);
                for k in 0..6 {
                    for j in 0..4 {
                        assert_eq!(a.quads[k].vertices[j].pos, b.quads[k].vertices[j].pos);
                        assert_eq!(
                            a.quads[k].vertices[j].texture_coordinates,
                            b.quads[k].vertices[j].texture_coordinates
                        );
                    }
                }
            }
        }
    }
}

#[test]
fn generate_chunk_with_land_over_the_top_is_solid() {
    let mut chunk = Chunk::new([0, 0, 0]);
    generate_chunk(&mut chunk.blocks, [0, 0, 0], &flat(i64::MAX));
    assert_eq!(chunk.blocks[0][0][0].material_type, MaterialType::ROCK);
    assert_eq!(chunk.blocks[99][15][15].material_type, MaterialType::DIRT);
}

#[test]
fn new_and_generated_chunks_are_well_formed() {
    let mut chunk = Chunk::new([1, 0, 1]);
    assert!(chunk.is_well_formed());
    generate_chunk(&mut chunk.blocks, [1, 0, 1], &slope());
    assert!(chunk.is_well_formed());
    assert!(grid_is_well_formed(&chunk.blocks));
    assert!(layer_is_well_formed(&chunk.blocks[7], 7));
    assert!(!layer_is_well_formed(&chunk.blocks[7], 8));
}

#[test]
fn chunk_of_the_wrong_size_is_not_well_formed() {
    let mut chunk = Chunk::new([0, 0, 0]);
    chunk.blocks.pop();
    assert!(!chunk.is_well_formed());
    let mut chunk = Chunk::new([0, 0, 0]);
    chunk.blocks[3].pop();
    assert!(!chunk.is_well_formed());
    let mut chunk = Chunk::new([0, 0, 0]);
    chunk.blocks[99][15].pop();
    assert!(!chunk.is_well_formed());
    let mut chunk = Chunk::new([0, 0, 0]);
    let extra = chunk.blocks[0][0][0];
    chunk.blocks[0][0].push(extra);
    assert!(!chunk.is_well_formed());
}

#[test]
fn chunk_with_a_misplaced_block_is_not_well_formed() {
    let mut chunk = Chunk::new([0, 0, 0]);
    chunk.blocks[5][6][7].position = [6, 5, 8];
    assert!(!chunk.is_well_formed());
    chunk.blocks[5][6][7].position = [6, 5, 7];
    assert!(chunk.is_well_formed());
    chunk.blocks.swap(0, 1);
    assert!(!chunk.is_well_formed());
}

#[test]
fn generate_chunk_without_land_is_water_and_air() {
    let mut chunk = Chunk::new([0, 0, 0]);
    generate_chunk(&mut chunk.blocks, [0, 0, 0], &flat(-3));
    for y in 0..CHUNK_Y_SIZE {
        for x in 0..CHUNK_AREA {
            for z in 0..CHUNK_AREA {
                let expected = if y <= LAND_LEVEL { MaterialType::WATER } else { MaterialType::AIR };
                assert_eq!(chunk.blocks[y][x][z].material_type, expected);
            }
        }
    }
}

#[test]
fn height_map_keeps_heights_below_the_world() {
    let mut heights = vec![0i64; 256];
    heights[17] = -40;
    let heights = HeightMap::new(heights).unwrap();
    assert_eq!(heights.get(1, 1), -40);
    assert_eq!(heights.get(1, 0), 0);
}
