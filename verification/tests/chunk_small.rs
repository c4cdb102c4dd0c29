use polydural::chunk::{generate_chunk, get_block, get_block_global, render_chunk, set_block};
use polydural::grid::split_coordinate;
use polydural::mesh::Shade;
use polydural::world::generation::terrain::{grass_draws, TerrainInput};
use polydural::world::WorldData;

fn air_chunk() -> Vec<i8> {
    vec![0; 4096]
}

fn idx(x: usize, y: usize, z: usize) -> usize {
    x * 256 + y * 16 + z
}

fn world_with_stone() -> WorldData {
    let mut w = WorldData::new();
    w.add_block("stone".to_string(), vec![1, 2, 3, 4, 5, 6], "polydural".to_string(), "cube".to_string(), false, false, true);
    w
}

#[test]
fn set_block_writes_only_its_cell() {
    let chunk = set_block(air_chunk(), 1, 2, 3, 5);
    assert_eq!(chunk[idx(1, 2, 3)], 5);
    assert_eq!(chunk.iter().filter(|b| **b != 0).count(), 1);
}

#[test]
fn set_block_ignores_cells_outside_the_chunk() {
    let chunk = set_block(air_chunk(), 16, 0, 0, 5);
    assert!(chunk.iter().all(|b| *b == 0));
    let chunk = set_block(air_chunk(), 0, -1, 0, 5);
    assert!(chunk.iter().all(|b| *b == 0));
}

#[test]
fn get_block_reads_back_what_set_block_wrote() {
    let w = WorldData::new();
    let chunk = set_block(air_chunk(), 15, 0, 7, 9);
    assert_eq!(get_block(&chunk, 15, 0, 7, &w, 0, 0, 0), 9);
    assert_eq!(get_block(&chunk, 14, 0, 7, &w, 0, 0, 0), 0);
}

#[test]
fn get_block_looks_across_a_face_into_a_loaded_neighbour() {
    let mut w = WorldData::new();
    w.set_chunk(-1, 0, 0, set_block(air_chunk(), 15, 2, 3, 7));
    let chunk = air_chunk();
    assert_eq!(get_block(&chunk, -1, 2, 3, &w, 0, 0, 0), 7);
    assert_eq!(get_block(&chunk, 16, 2, 3, &w, 0, 0, 0), -1);
    assert_eq!(get_block(&chunk, -1, -1, 3, &w, 0, 0, 0), -1);
}

#[test]
fn get_block_global_finds_negative_world_cells() {
    let mut w = WorldData::new();
    w.set_chunk(-1, 0, 0, set_block(air_chunk(), 15, 0, 0, 4));
    assert_eq!(get_block_global(&w, -1, 0, 0), 4);
    assert_eq!(get_block_global(&w, -2, 0, 0), 0);
    assert_eq!(get_block_global(&w, 0, 0, 0), -1);
}

#[test]
fn split_coordinate_rounds_down() {
    assert_eq!(split_coordinate(-1, 32), (-1, 31));
    assert_eq!(split_coordinate(33, 32), (1, 1));
    assert_eq!(split_coordinate(-16, 16), (-1, 0));
    assert_eq!(split_coordinate(i64::MIN, 32), (i64::MIN / 32, 0));
    assert_eq!(split_coordinate(i64::MAX, 16), (i64::MAX / 16, 15));
}

#[test]
fn render_chunk_of_air_is_empty() {
    let w = world_with_stone();
    let m = render_chunk(&air_chunk(), &w, 0, 0, 0);
    assert_eq!(m.vertices.len(), 0);
}

#[test]
fn render_chunk_shows_all_faces_of_a_free_block() {
    let w = world_with_stone();
    let chunk = set_block(air_chunk(), 5, 5, 5, 1);
    let m = render_chunk(&chunk, &w, 0, 0, 0);
    assert_eq!(m.vertices.len(), 36);
    assert_eq!(m.normals.len(), 36);
    assert_eq!(m.uvs.len(), 36);
    assert!(m.colors.iter().all(|c| *c == Shade::Lit));
    // +x face first, centred on the block at half-block coordinates 10.
    assert_eq!(m.normals[0], (1, 0, 0));
    assert!(m.vertices[..6].iter().all(|v| v.0 == 11));
}

#[test]
fn render_chunk_hides_faces_against_unloaded_neighbours() {
    let w = world_with_stone();
    let chunk = set_block(air_chunk(), 0, 0, 0, 1);
    let m = render_chunk(&chunk, &w, 0, 0, 0);
    assert_eq!(m.vertices.len(), 18);
}

#[test]
fn render_chunk_darkens_a_face_next_to_an_edge_neighbour() {
    let w = world_with_stone();
    let chunk = set_block(set_block(air_chunk(), 5, 5, 5, 1), 6, 4, 5, 1);
    let m = render_chunk(&chunk, &w, 0, 0, 0);
    assert!(m.colors.iter().any(|c| *c == Shade::Occluded));
    assert_eq!(m.vertices.len() % 6, 0);
}

fn flat_input(height: i64) -> TerrainInput {
    TerrainInput { heights: vec![height; 256], grass: vec![true; 4096], tree: vec![false; 4096] }
}

fn terrain_world() -> WorldData {
    let mut w = WorldData::new();
    for name in ["dirt", "stone", "grass_1", "grass_2", "oak_log"] {
        w.add_block(name.to_string(), vec![0; 6], "polydural".to_string(), "cube".to_string(), false, false, true);
    }
    w
}

#[test]
fn generate_chunk_lays_grass_dirt_and_stone() {
    let w = terrain_world();
    let chunk = generate_chunk(1, 0, 0, &flat_input(10), &w);
    assert_eq!(chunk.len(), 4096);
    assert_eq!(chunk[idx(0, 10, 0)], 3);
    assert_eq!(chunk[idx(0, 9, 0)], 1);
    assert_eq!(chunk[idx(0, 6, 0)], 2);
    assert_eq!(chunk[idx(0, 11, 0)], 0);
}

#[test]
fn generate_chunk_keeps_the_origin_clear() {
    let w = terrain_world();
    let chunk = generate_chunk(0, 0, 0, &flat_input(20), &w);
    // (0, 16, 0) lies at the centre of the clearing.
    assert_eq!(chunk[idx(0, 15, 0)], 0);
    assert_eq!(chunk[idx(15, 15, 15)], 2);
}

#[test]
fn generate_chunk_grows_a_five_block_trunk() {
    let w = terrain_world();
    let mut input = flat_input(3);
    input.tree[idx(8, 4, 8)] = true;
    input.grass = vec![false; 4096];
    let chunk = generate_chunk(2, 0, 2, &input, &w);
    assert_eq!(chunk[idx(8, 3, 8)], 4);
    for y in 4..9 {
        assert_eq!(chunk[idx(8, y, 8)], 5);
    }
    assert_eq!(chunk[idx(8, 9, 8)], 0);
}

#[test]
fn generated_surfaces_use_either_grass() {
    let w = terrain_world();
    let input = TerrainInput { heights: vec![10; 256], grass: grass_draws(), tree: vec![false; 4096] };
    assert_eq!(input.grass.len(), 4096);
    let chunk = generate_chunk(1, 0, 0, &input, &w);
    for x in 0..16 {
        for z in 0..16 {
            let top = chunk[idx(x, 10, z)];
            assert_eq!(top, if input.grass[idx(x, 10, z)] { 3 } else { 4 });
        }
    }
}
