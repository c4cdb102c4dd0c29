use polydural::biome_terrain::{generate_chunk as biome_generate_chunk, generation_possible, place_terrain, BiomeTerrainInput};
use polydural::chunk_loading::{finish_generated_chunk, next_rerender, refresh_nearby_chunks, register_created_chunk};
use polydural::common::Block;
use polydural::world::WorldData;

fn at(x: usize, y: usize, z: usize) -> usize {
    x * 1024 + y * 32 + z
}

/// grass_1 = 1, grass_2 = 2, dirt = 3, snow = 4, sand_1 = 5, sand_2 = 6,
/// stone = 7, oak_log = 8, glass = 9 (transparent).
fn world() -> WorldData {
    let mut w = WorldData::new();
    w.block_index.insert("air".to_string(), 0);
    for name in ["grass_1", "grass_2", "dirt", "snow", "sand_1", "sand_2", "stone", "oak_log"] {
        w.add_block(name.to_string(), vec![0; 6], "p".to_string(), "cube".to_string(), false, false, true);
    }
    w.add_block("glass".to_string(), vec![0; 6], "p".to_string(), "cube".to_string(), true, true, true);
    w.add_structure("oak".to_string(), vec![
        Block { position: [0, 0, 0], block: "oak_log".to_string() },
        Block { position: [0, 1, 0], block: "oak_log".to_string() },
        Block { position: [0, 40, 0], block: "oak_log".to_string() },
    ]);
    w.add_biome(
        "plains".to_string(), 20, 50, 0,
        vec![
            (vec!["grass_1".to_string()], 0),
            (vec!["dirt".to_string()], 1),
            (vec!["stone".to_string()], 3),
        ],
        0,
        vec![("oak".to_string(), 0.5f32.to_bits())],
        Vec::new(),
        Vec::new(),
    );
    w
}

fn flat(height: i64, draw: f32) -> BiomeTerrainInput {
    BiomeTerrainInput {
        biomes: vec!["plains".to_string(); 1024],
        heights: vec![height; 1024],
        open: vec![true; 32768],
        folliage: vec![draw.to_bits(); 32768],
    }
}

#[test]
fn layers_fill_columns_from_the_deepest() {
    let w = world();
    let chunk = place_terrain(&flat(10, 0.9), &w, 0, 0, 0, &vec![0; 32768], &vec![0; 32768]);
    assert_eq!(chunk[at(0, 10, 0)], 1);
    assert_eq!(chunk[at(0, 9, 0)], 3);
    assert_eq!(chunk[at(0, 8, 0)], 3);
    assert_eq!(chunk[at(0, 7, 0)], 7);
    assert_eq!(chunk[at(0, 0, 0)], 7);
    assert_eq!(chunk[at(0, 11, 0)], 0);
}

#[test]
fn caves_stay_empty() {
    let w = world();
    let mut input = flat(10, 0.9);
    input.open[at(3, 5, 3)] = false;
    let chunk = place_terrain(&input, &w, 0, 0, 0, &vec![0; 32768], &vec![0; 32768]);
    assert_eq!(chunk[at(3, 5, 3)], 0);
    assert_eq!(chunk[at(3, 4, 3)], 7);
}

#[test]
fn trees_grow_where_the_draw_is_below_the_chance() {
    let w = world();
    let chunk = place_terrain(&flat(10, 0.25), &w, 0, 0, 0, &vec![0; 32768], &vec![0; 32768]);
    assert_eq!(chunk[at(4, 11, 4)], 8);
    assert_eq!(chunk[at(4, 12, 4)], 8);
    assert_eq!(chunk[at(4, 13, 4)], 0);
    let bare = place_terrain(&flat(10, 0.75), &w, 0, 0, 0, &vec![0; 32768], &vec![0; 32768]);
    assert_eq!(bare[at(4, 11, 4)], 0);
}

#[test]
fn chunk_height_shifts_the_layers() {
    let w = world();
    // The chunk one up starts at world height 32.
    let chunk = place_terrain(&flat(40, 0.9), &w, 0, 1, 0, &vec![0; 32768], &vec![0; 32768]);
    assert_eq!(chunk[at(0, 8, 0)], 1);
    assert_eq!(chunk[at(0, 7, 0)], 3);
    assert_eq!(chunk[at(0, 5, 0)], 7);
    assert_eq!(chunk[at(0, 9, 0)], 0);
}

#[test]
fn generated_chunks_come_with_their_light() {
    let w = world();
    let (chunk, light) = biome_generate_chunk(0, 0, 0, &flat(10, 0.9), &w);
    assert_eq!(chunk.len(), 32768);
    assert_eq!(light.len(), 32768);
    assert_eq!(chunk[at(0, 10, 0)], 1);
    assert!(light.iter().all(|l| *l == 127));
}

#[test]
fn nearby_chunks_are_visited_shell_by_shell() {
    let mut w = WorldData::new();
    w.add_object((0, 0, 0));
    w.add_object((-3, -2, -1));
    w.add_object((10, 0, 0));
    w.created_chunk_queue.insert((3, 0, 0), ());
    let mut active = vec![false; 3];
    let activated = refresh_nearby_chunks(&mut w, &mut active, (0, 0, 0));
    assert_eq!(activated, vec![(-3, -2, -1), (0, 0, 0)]);
    assert_eq!(w.active_chunks, vec![1, 0]);
    assert_eq!(active, vec![true, true, false]);
    // 172 nearby chunks: two have buffers and one is created already.
    assert_eq!(w.chunk_queue.len(), 172 - 3);
    assert!(!w.chunk_queue.contains_key(&(3, 0, 0)));
    assert!(!w.chunk_queue.contains_key(&(3, 0, 3)));
    assert!(w.chunk_queue.contains_key(&(0, 1, 0)));
}

#[test]
fn rerendering_waits_for_generation() {
    let mut w = WorldData::new();
    w.add_object((5, 5, 5));
    w.chunk_update_queue = vec![0, 0];
    w.chunk_queue.insert((1, 1, 1), ());
    assert_eq!(next_rerender(&mut w), None);
    assert_eq!(w.chunk_update_queue, vec![0, 0]);
    w.chunk_queue.pop_first();
    assert_eq!(next_rerender(&mut w), Some(((5, 5, 5), 0)));
    assert_eq!(w.chunk_update_queue, vec![0]);
}

#[test]
fn created_chunks_are_stored_then_registered() {
    let mut w = WorldData::new();
    finish_generated_chunk(&mut w, (2, 3, 4), vec![0; 32768]);
    assert!(w.chunks.contains_key(&(2, 3, 4)));
    assert!(w.created_chunk_queue.contains_key(&(2, 3, 4)));
    let n = register_created_chunk(&mut w, (2, 3, 4));
    assert_eq!(n, 0);
    assert_eq!(w.active_chunks, vec![0]);
    assert_eq!(w.chunk_buffer_index.get(&(2, 3, 4)), Some(&0));
}

#[test]
fn layer_picks_choose_among_several_blocks() {
    let mut w = world();
    w.add_biome(
        "desert".to_string(), 90, 0, 0,
        vec![(vec!["sand_1".to_string(), "sand_2".to_string()], 0)],
        0, vec![("oak".to_string(), 0.0f32.to_bits())], Vec::new(), Vec::new(),
    );
    let mut input = flat(4, 0.9);
    input.biomes = vec!["desert".to_string(); 1024];
    let chunk = place_terrain(&input, &w, 0, 0, 0, &vec![1; 32768], &vec![0; 32768]);
    assert_eq!(chunk[at(1, 4, 1)], 6);
    let chunk = place_terrain(&input, &w, 0, 0, 0, &vec![0; 32768], &vec![0; 32768]);
    assert_eq!(chunk[at(1, 4, 1)], 5);
    let (generated, _light) = biome_generate_chunk(0, 0, 0, &flat(4, 0.9), &w);
    assert_eq!(generated[at(1, 4, 1)], 1);
}

#[test]
fn generation_needs_only_what_it_looks_up() {
    let mut w = world();
    assert!(generation_possible(&flat(10, 0.9), &w, 0, 0, 0));
    let mut missing = flat(10, 0.9);
    missing.biomes[5] = "tundra".to_string();
    assert!(!generation_possible(&missing, &w, 0, 0, 0));
    // A layer deeper than any column reaches may name an unknown block.
    w.add_biome(
        "hills".to_string(), 0, 0, 0,
        vec![(vec!["grass_1".to_string()], 0), (vec!["granite".to_string()], 100)],
        0, vec![("oak".to_string(), 0)], Vec::new(), Vec::new(),
    );
    let mut hills = flat(10, 0.9);
    hills.biomes = vec!["hills".to_string(); 1024];
    assert!(generation_possible(&hills, &w, 0, 0, 0));
    hills.heights = vec![200; 1024];
    assert!(!generation_possible(&hills, &w, 0, 0, 0));
    // A surface one above the ground needs a tree to pick.
    w.add_biome(
        "barren".to_string(), 0, 0, 0,
        vec![(vec!["dirt".to_string()], 0)],
        0, Vec::new(), Vec::new(), Vec::new(),
    );
    let mut barren = flat(10, 0.9);
    barren.biomes = vec!["barren".to_string(); 1024];
    assert!(!generation_possible(&barren, &w, 0, 0, 0));
    barren.heights = vec![40; 1024];
    assert!(generation_possible(&barren, &w, 0, 0, 0));
}

#[test]
fn treeless_biome_over_bare_rock_generates() {
    let mut w = world();
    w.add_biome(
        "crags".to_string(), 0, 0, 0,
        vec![(vec!["stone".to_string()], 0)],
        0, Vec::new(), Vec::new(), Vec::new(),
    );
    let mut crags = flat(10, 0.0);
    crags.biomes = vec!["crags".to_string(); 1024];
    assert!(generation_possible(&crags, &w, 0, 0, 0));
    let (chunk, light) = biome_generate_chunk(0, 0, 0, &crags, &w);
    assert_eq!(chunk[at(3, 10, 3)], 7);
    assert_eq!(chunk[at(3, 11, 3)], 0);
    assert_eq!(light[at(3, 11, 3)], 127);
    // With a plains column beside it, whose oak is not ground, it still passes.
    crags.biomes[0] = "plains".to_string();
    assert!(generation_possible(&crags, &w, 0, 0, 0));
}
