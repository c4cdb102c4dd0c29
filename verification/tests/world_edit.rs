use polydural::chunk_loading::{next_queued_chunk, refresh_active_chunks, store_generated_chunk};
use polydural::containers::Inventory;
use polydural::interact::{break_block, edit_block, first_block_hit, place_block, queue_boundary_updates};
use polydural::lit_chunk::{get_block_global, set_block};
use polydural::position_map::PositionMap;
use polydural::world::WorldData;

fn air() -> Vec<i8> {
    vec![0; 32768]
}

fn registry() -> WorldData {
    let mut w = WorldData::new();
    w.block_index.insert("air".to_string(), 0);
    for name in ["dirt", "grass_1", "stone"] {
        w.add_block(name.to_string(), vec![0; 6], "p".to_string(), "cube".to_string(), false, false, true);
    }
    w
}

#[test]
fn registering_a_name_twice_keeps_the_first() {
    let mut w = WorldData::new();
    w.add_block("stone".to_string(), vec![1; 6], "a".to_string(), "cube".to_string(), false, false, true);
    w.add_block("stone".to_string(), vec![2; 6], "b".to_string(), "cube".to_string(), true, true, false);
    assert_eq!(w.blocks.len(), 1);
    assert_eq!(w.blocks[0].owner, "a");
    assert_eq!(w.block_index.get("stone"), Some(&1));
    w.add_block("dirt".to_string(), vec![3; 6], "a".to_string(), "cube".to_string(), false, false, true);
    assert_eq!(w.block_index.get("dirt"), Some(&2));
    w.add_shape("cube".to_string(), Vec::new());
    w.add_shape("cube".to_string(), Vec::new());
    assert_eq!(w.shapes.len(), 1);
    assert_eq!(w.shape_index.get("cube"), Some(&1));
}

#[test]
fn render_buffers_are_numbered_in_order() {
    let mut w = WorldData::new();
    w.add_object((3, 0, 0));
    w.add_object((-3, 1, 0));
    assert_eq!(w.chunk_buffer_coordinates, vec![(3, 0, 0), (-3, 1, 0)]);
    assert_eq!(w.chunk_buffer_index.get(&(-3, 1, 0)), Some(&1));
}

#[test]
fn first_block_hit_skips_air_and_unloaded_cells() {
    let mut chunks: PositionMap<Vec<i8>> = PositionMap::new();
    chunks.insert((0, 0, 0), set_block(air(), 4, 0, 0, 3));
    let ray = vec![(-5, 0, 0), (1, 0, 0), (4, 0, 0), (5, 0, 0)];
    assert_eq!(first_block_hit(&chunks, &ray), Some(2));
    let ray = vec![(1, 0, 0), (2, 0, 0)];
    assert_eq!(first_block_hit(&chunks, &ray), None);
}

#[test]
fn breaking_a_block_leaves_air_and_reports_its_chunk() {
    let mut w = registry();
    let mut chunks: PositionMap<Vec<i8>> = PositionMap::new();
    chunks.insert((0, 0, 0), set_block(air(), 4, 5, 6, 3));
    w.add_object((0, 0, 0));
    let ray = vec![(4, 3, 6), (4, 4, 6), (4, 5, 6)];
    let r = break_block(&mut w, &chunks, &ray);
    assert_eq!(r, Some(((0, 0, 0), 0)));
    let stored = w.chunks.get(&(0, 0, 0)).unwrap();
    assert_eq!(stored[4 * 1024 + 5 * 32 + 6], 0);
    assert!(w.chunk_update_queue.is_empty());
}

#[test]
fn breaking_a_block_on_a_chunk_face_queues_the_neighbour() {
    let mut w = registry();
    let mut chunks: PositionMap<Vec<i8>> = PositionMap::new();
    chunks.insert((0, 0, 0), set_block(air(), 0, 5, 31, 2));
    w.add_object((0, 0, 0));
    w.add_object((-1, 0, 0));
    w.add_object((0, 0, 1));
    let ray = vec![(0, 5, 31)];
    let r = break_block(&mut w, &chunks, &ray);
    assert_eq!(r, Some(((0, 0, 0), 0)));
    assert_eq!(w.chunk_update_queue, vec![1, 2]);
}

#[test]
fn breaking_nothing_changes_nothing() {
    let mut w = registry();
    let chunks: PositionMap<Vec<i8>> = PositionMap::new();
    let ray = vec![(0, 0, 0), (1, 1, 1)];
    assert_eq!(break_block(&mut w, &chunks, &ray), None);
    assert_eq!(w.chunks.len(), 0);
}

#[test]
fn placing_puts_the_selected_block_before_the_hit() {
    let mut w = registry();
    let mut chunks: PositionMap<Vec<i8>> = PositionMap::new();
    chunks.insert((0, 0, 0), set_block(air(), 10, 10, 10, 3));
    w.add_object((0, 0, 0));
    let inventory = Inventory::new();
    let ray = vec![(10, 12, 10), (10, 11, 10), (10, 10, 10)];
    let r = place_block(&mut w, &chunks, &ray, 1, &inventory);
    assert_eq!(r, Some(((0, 0, 0), 0)));
    let stored = w.chunks.get(&(0, 0, 0)).unwrap();
    assert_eq!(stored[10 * 1024 + 11 * 32 + 10], 2);
    assert_eq!(stored[10 * 1024 + 10 * 32 + 10], 3);
}

#[test]
fn placing_at_the_first_cell_overwrites_it() {
    let mut w = registry();
    let mut chunks: PositionMap<Vec<i8>> = PositionMap::new();
    chunks.insert((0, 0, 0), set_block(air(), 1, 1, 1, 3));
    w.add_object((0, 0, 0));
    let inventory = Inventory::new();
    let ray = vec![(1, 1, 1)];
    assert_eq!(place_block(&mut w, &chunks, &ray, 0, &inventory), Some(((0, 0, 0), 0)));
    assert_eq!(w.chunks.get(&(0, 0, 0)).unwrap()[1 * 1024 + 32 + 1], 1);
}

#[test]
fn editing_an_unloaded_cell_does_nothing() {
    let mut w = registry();
    let chunks: PositionMap<Vec<i8>> = PositionMap::new();
    assert_eq!(edit_block(&mut w, &chunks, (100, 0, 0), 1), None);
    assert_eq!(w.chunks.len(), 0);
}

#[test]
fn edit_then_read_gives_the_block_back() {
    let mut w = registry();
    let mut chunks: PositionMap<Vec<i8>> = PositionMap::new();
    chunks.insert((-1, 0, 0), air());
    w.add_object((-1, 0, 0));
    w.add_object((0, 0, 0));
    assert_eq!(edit_block(&mut w, &chunks, (-1, 7, 7), 2), Some(((-1, 0, 0), 0)));
    assert_eq!(get_block_global(&w.chunks, -1, 7, 7), 2);
    assert_eq!(get_block_global(&w.chunks, -2, 7, 7), 0);
    assert_eq!(w.chunk_update_queue, vec![1]);
}

#[test]
fn boundary_updates_cover_each_touched_face() {
    let mut w = WorldData::new();
    for p in [(4, 5, 6), (6, 5, 6), (5, 4, 6), (5, 5, 7)] {
        w.add_object(p);
    }
    queue_boundary_updates(&mut w, (5, 5, 6), 31, 0, 31);
    assert_eq!(w.chunk_update_queue, vec![1, 2, 3]);
    queue_boundary_updates(&mut w, (5, 5, 6), 3, 3, 3);
    assert_eq!(w.chunk_update_queue, vec![1, 2, 3]);
}

#[test]
fn refresh_activates_loaded_chunks_and_queues_the_rest() {
    let mut w = WorldData::new();
    w.add_object((0, 0, 0));
    w.add_object((-4, -2, -4));
    w.add_object((9, 9, 9));
    w.active_chunks = vec![2];
    let mut active = vec![false, false, true];
    refresh_active_chunks(&mut w, &mut active, (0, 0, 0));
    assert_eq!(w.active_chunks, vec![1, 0]);
    assert_eq!(active, vec![true, true, false]);
    assert_eq!(w.chunk_queue.len(), 256 - 2);
    assert!(w.chunk_queue.contains_key(&(3, 1, 3)));
    assert!(!w.chunk_queue.contains_key(&(4, 0, 0)));
    assert_eq!(next_queued_chunk(&mut w), Some((-4, -2, -3)));
    assert_eq!(w.chunk_queue.len(), 256 - 3);
}

#[test]
fn generated_chunks_take_the_next_buffer() {
    let mut w = WorldData::new();
    w.add_object((1, 1, 1));
    let n = store_generated_chunk(&mut w, (2, 0, 0), air());
    assert_eq!(n, 1);
    assert_eq!(w.active_chunks, vec![1]);
    assert_eq!(w.updated_chunks, vec![1]);
    assert_eq!(w.chunk_update_queue, vec![1]);
    assert_eq!(w.chunk_buffer_index.get(&(2, 0, 0)), Some(&1));
    assert!(w.chunks.contains_key(&(2, 0, 0)));
}

#[test]
fn an_empty_queue_yields_nothing() {
    let mut w = WorldData::new();
    assert_eq!(next_queued_chunk(&mut w), None);
}
