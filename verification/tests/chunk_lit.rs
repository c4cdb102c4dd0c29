use polydural::common::Element;
use polydural::lit_chunk::{
    _generate_light, get_block as lit_get_block, get_block_global as lit_get_block_global,
    get_block_transparent, light_columns, render_chunk as lit_render_chunk, set_block as lit_set_block,
};
use polydural::mesh::Shade;
use polydural::physics;
use polydural::position_map::PositionMap;
use polydural::world::WorldData;

fn air() -> Vec<i8> {
    vec![0; 32768]
}

fn at(x: usize, y: usize, z: usize) -> usize {
    x * 1024 + y * 32 + z
}

fn element(from: [f64; 3], to: [f64; 3]) -> Element {
    Element {
        from: [from[0].to_bits(), from[1].to_bits(), from[2].to_bits()],
        to: [to[0].to_bits(), to[1].to_bits(), to[2].to_bits()],
    }
}

/// stone = 1 (opaque, collides), glass = 2 (transparent, shows its
/// neighbours' sides), pane = 3 (transparent flat plane), leaves = 4
/// (transparent, hides neighbours' sides, no collision).
fn world() -> WorldData {
    let mut w = WorldData::new();
    w.add_shape("cube".to_string(), vec![element([0.0, 0.0, 0.0], [16.0, 16.0, 16.0])]);
    w.add_shape("plane".to_string(), vec![element([0.0, 8.0, 0.0], [16.0, 8.0, 16.0])]);
    w.add_block("stone".to_string(), vec![1, 2, 3, 4, 5, 6], "p".to_string(), "cube".to_string(), false, false, true);
    w.add_block("glass".to_string(), vec![7; 6], "p".to_string(), "cube".to_string(), true, true, true);
    w.add_block("pane".to_string(), vec![8; 6], "p".to_string(), "plane".to_string(), true, true, true);
    w.add_block("leaves".to_string(), vec![9; 6], "p".to_string(), "cube".to_string(), false, true, false);
    w
}

#[test]
fn lit_set_block_and_get_block_agree() {
    let chunks: PositionMap<Vec<i8>> = PositionMap::new();
    let chunk = lit_set_block(air(), 31, 0, 17, 3);
    assert_eq!(chunk[at(31, 0, 17)], 3);
    assert_eq!(lit_get_block(&chunk, 31, 0, 17, &chunks, 0, 0, 0), 3);
    assert_eq!(lit_get_block(&chunk, 32, 0, 17, &chunks, 0, 0, 0), -1);
    let unchanged = lit_set_block(chunk.clone(), 32, 0, 0, 3);
    assert_eq!(unchanged, chunk);
}

#[test]
fn lit_get_block_global_reads_a_loaded_chunk() {
    let mut chunks: PositionMap<Vec<i8>> = PositionMap::new();
    chunks.insert((0, -1, 0), lit_set_block(air(), 1, 31, 2, 4));
    assert_eq!(lit_get_block_global(&chunks, 1, -1, 2), 4);
    assert_eq!(lit_get_block_global(&chunks, 1, -33, 2), -1);
}

#[test]
fn transparency_of_neighbours() {
    let w = world();
    let mut chunks: PositionMap<Vec<i8>> = PositionMap::new();
    chunks.insert((1, 0, 0), lit_set_block(air(), 0, 0, 0, 2));
    let chunk = lit_set_block(air(), 3, 3, 3, 1);
    assert!(!get_block_transparent(&chunk, 3, 3, 3, &chunks, &w, 0, 0, 0));
    assert!(get_block_transparent(&chunk, 3, 4, 3, &chunks, &w, 0, 0, 0));
    assert!(get_block_transparent(&chunk, 32, 0, 0, &chunks, &w, 0, 0, 0));
    assert!(!get_block_transparent(&chunk, -1, 0, 0, &chunks, &w, 0, 0, 0));
}

#[test]
fn full_light_everywhere_at_first() {
    let light = _generate_light(&air());
    assert_eq!(light.len(), 32768);
    assert!(light.iter().all(|l| *l == 127));
}

#[test]
fn light_dims_below_transparent_blocks_only() {
    let w = world();
    let mut chunk = lit_set_block(air(), 0, 10, 0, 2);
    chunk = lit_set_block(chunk, 0, 5, 0, 1);
    chunk = lit_set_block(chunk, 0, 3, 0, 4);
    let light = light_columns(&chunk, &w);
    assert_eq!(light[at(0, 11, 0)], 127);
    assert_eq!(light[at(0, 10, 0)], 117);
    assert_eq!(light[at(0, 5, 0)], 117);
    assert_eq!(light[at(0, 3, 0)], 107);
    assert_eq!(light[at(0, 0, 0)], 107);
    assert_eq!(light[at(1, 0, 0)], 127);
}

#[test]
fn light_never_falls_below_seven() {
    let w = world();
    let mut chunk = air();
    for y in 0..32 {
        chunk = lit_set_block(chunk, 2, y, 2, 2);
    }
    let light = light_columns(&chunk, &w);
    assert_eq!(light[at(2, 31, 2)], 117);
    assert_eq!(light[at(2, 20, 2)], 7);
    assert_eq!(light[at(2, 0, 2)], 7);
}

#[test]
fn lit_render_splits_opaque_and_transparent_faces() {
    let w = world();
    let chunks: PositionMap<Vec<i8>> = PositionMap::new();
    let mut chunk = lit_set_block(air(), 5, 5, 5, 1);
    chunk = lit_set_block(chunk, 9, 9, 9, 2);
    chunk = lit_set_block(chunk, 12, 12, 12, 3);
    let light = _generate_light(&chunk);
    let (opaque, transparent) = lit_render_chunk(&chunk, &light, &chunks, &w, 0, 0, 0);
    assert_eq!(opaque.len(), 36);
    // The glass cube shows six faces, the flat pane only its top and bottom.
    assert_eq!(transparent.len(), 36 + 12);
    assert!(opaque.iter().all(|v| v.cell == (5, 5, 5) && v.light == 127 && v.shade == Shade::Lit));
    assert_eq!(opaque[0].normal, (1, 0, 0));
    assert_eq!(opaque[0].corner, (1, -1, 1));
    assert_eq!(opaque[0].uv, (1, 1));
}

#[test]
fn lit_render_hides_faces_between_solid_blocks() {
    let w = world();
    let chunks: PositionMap<Vec<i8>> = PositionMap::new();
    let mut chunk = lit_set_block(air(), 5, 5, 5, 1);
    chunk = lit_set_block(chunk, 6, 5, 5, 1);
    let light = _generate_light(&chunk);
    let (opaque, transparent) = lit_render_chunk(&chunk, &light, &chunks, &w, 0, 0, 0);
    assert_eq!(opaque.len(), 60);
    assert_eq!(transparent.len(), 0);
}

#[test]
fn lit_render_of_air_is_empty() {
    let w = world();
    let chunks: PositionMap<Vec<i8>> = PositionMap::new();
    let chunk = air();
    let light = _generate_light(&chunk);
    let (opaque, transparent) = lit_render_chunk(&chunk, &light, &chunks, &w, 0, 0, 0);
    assert!(opaque.is_empty() && transparent.is_empty());
}

#[test]
fn collisions_follow_block_definitions() {
    let w = world();
    let mut chunks: PositionMap<Vec<i8>> = PositionMap::new();
    let mut chunk = lit_set_block(air(), 0, 0, 0, 1);
    chunk = lit_set_block(chunk, 1, 0, 0, 4);
    chunks.insert((0, 0, 0), chunk.clone());
    assert!(physics::get_block_global(&chunks, &w.blocks, 0, 0, 0));
    assert!(!physics::get_block_global(&chunks, &w.blocks, 1, 0, 0));
    assert!(!physics::get_block_global(&chunks, &w.blocks, 2, 0, 0));
    assert!(physics::get_block_global(&chunks, &w.blocks, 0, 0, 32));
    assert!(physics::get_block(&chunk, 0, 0, 0, &chunks, &w.blocks, 0, 0, 0));
    assert!(!physics::get_block(&chunk, 1, 0, 0, &chunks, &w.blocks, 0, 0, 0));
    assert!(physics::get_block(&chunk, -1, 0, 0, &chunks, &w.blocks, 0, 0, 0));
}
