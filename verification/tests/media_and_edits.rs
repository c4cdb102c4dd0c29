use std::io::Cursor;

use polydural::chunk::{get_block as small_get_block, set_block as small_set_block};
use polydural::chunk_loading::{frame_plan, registration_picks};
use polydural::containers::Inventory;
use polydural::interact::{break_block, can_edit, place_block};
use polydural::lit_chunk::{get_block, set_block};
use polydural::media::{gather_channels, handle_audio_data_ogg, handle_audio_data_wav, load_texture_atlasses};
use polydural::position_map::PositionMap;
use polydural::render_check::chunk_drawable_exec;
use polydural::world::WorldData;

fn air() -> Vec<i8> {
    vec![0; 32768]
}

fn registry() -> WorldData {
    let mut w = WorldData::new();
    w.block_index.insert("air".to_string(), 0);
    for name in ["dirt", "grass_1", "stone"] {
        w.add_block(name.to_string(), vec![0; 6], "p".to_string(), "cube".to_string(), false, false, true);
    }
    w
}

fn wav_bytes(samples: &[i16]) -> Vec<u8> {
    let spec = hound::WavSpec { channels: 1, sample_rate: 8000, bits_per_sample: 16, sample_format: hound::SampleFormat::Int };
    let mut bytes = Cursor::new(Vec::new());
    {
        let mut writer = hound::WavWriter::new(&mut bytes, spec).unwrap();
        for s in samples {
            writer.write_sample(*s).unwrap();
        }
        writer.finalize().unwrap();
    }
    bytes.into_inner()
}

#[test]
fn wav_samples_come_back_as_one_channel() {
    let bytes = wav_bytes(&[3, -7, 32767, -32768, 0]);
    assert_eq!(handle_audio_data_wav(&bytes), Some(vec![vec![3, -7, 32767, -32768, 0]]));
}

#[test]
fn unreadable_sound_files_give_nothing() {
    let junk = vec![1u8, 2, 3, 4, 5, 6, 7, 8];
    assert_eq!(handle_audio_data_wav(&junk), None);
    assert_eq!(handle_audio_data_ogg(&junk), None);
    assert_eq!(handle_audio_data_ogg(&Vec::new()), None);
}

#[test]
fn packets_are_gathered_per_channel() {
    let packets = vec![
        vec![vec![1, 2], vec![10]],
        vec![vec![3]],
        vec![vec![4], vec![11, 12], vec![20]],
    ];
    assert_eq!(gather_channels(&packets), vec![vec![1, 2, 3, 4], vec![10, 11, 12], vec![20]]);
    assert_eq!(gather_channels(&Vec::new()), Vec::<Vec<i16>>::new());
    assert_eq!(gather_channels(&vec![Vec::new(), vec![vec![], vec![5]]]), vec![vec![], vec![5]]);
}

#[test]
fn atlas_pixels_are_decoded() {
    let mut image = image::RgbaImage::new(2, 1);
    image.put_pixel(0, 0, image::Rgba([1, 2, 3, 4]));
    image.put_pixel(1, 0, image::Rgba([5, 6, 7, 8]));
    let mut png = Cursor::new(Vec::new());
    image.write_to(&mut png, image::ImageOutputFormat::Png).unwrap();
    let bytes = png.into_inner();
    assert_eq!(load_texture_atlasses(&bytes), Some((vec![1, 2, 3, 4, 5, 6, 7, 8], 2, 1)));
    assert_eq!(load_texture_atlasses(&vec![0u8; 16]), None);
}

#[test]
fn frames_refresh_and_register_on_their_phase() {
    assert!(frame_plan(30).refresh && !frame_plan(30).register);
    assert!(frame_plan(0).refresh);
    assert!(!frame_plan(31).refresh && !frame_plan(31).register);
    assert!(frame_plan(50).register && frame_plan(55).register);
    assert!(!frame_plan(52).register);
}

#[test]
fn registering_takes_every_other_created_chunk() {
    assert_eq!(registration_picks(0), Vec::<usize>::new());
    assert_eq!(registration_picks(1), Vec::<usize>::new());
    assert_eq!(registration_picks(2), vec![0]);
    assert_eq!(registration_picks(3), vec![0]);
    assert_eq!(registration_picks(4), vec![0, 1]);
    assert_eq!(registration_picks(6), vec![0, 1, 2]);
    assert_eq!(registration_picks(100), vec![0, 1, 2]);
}

#[test]
fn lookups_read_only_the_chunk_they_need() {
    let mut chunks: PositionMap<Vec<i8>> = PositionMap::new();
    chunks.insert((5, 5, 5), vec![1, 2, 3]);
    chunks.insert((-1, 0, 0), set_block(air(), 31, 2, 3, 9));
    let chunk = set_block(air(), 4, 4, 4, 6);
    assert_eq!(get_block(&chunk, 4, 4, 4, &chunks, 0, 0, 0), 6);
    assert_eq!(get_block(&chunk, -1, 2, 3, &chunks, 0, 0, 0), 9);
    assert_eq!(get_block(&chunk, -5, 2, 3, &chunks, 0, 0, 0), 9);
    assert_eq!(get_block(&chunk, -1, -1, 3, &chunks, 0, 0, 0), -1);
    assert_eq!(get_block(&chunk, 32, 2, 3, &chunks, 0, 0, 0), -1);
    let mut small = WorldData::new();
    small.set_chunk(9, 9, 9, vec![1]);
    let c = small_set_block(vec![0; 4096], 1, 1, 1, 2);
    assert_eq!(small_get_block(&c, 1, 1, 1, &small, 0, 0, 0), 2);
}

#[test]
fn breaking_edits_only_the_first_hit() {
    let mut w = registry();
    w.add_object((0, 0, 0));
    let mut chunks: PositionMap<Vec<i8>> = PositionMap::new();
    chunks.insert((0, 0, 0), set_block(set_block(air(), 5, 5, 5, 3), 5, 5, 31, 3));
    // The ray goes on through a block on the chunk's face, whose neighbour has no buffer.
    let ray = vec![(5, 5, 4), (5, 5, 5), (5, 5, 31)];
    assert!(!can_edit(&w, (5, 5, 31)));
    assert!(can_edit(&w, (5, 5, 5)));
    assert_eq!(break_block(&mut w, &chunks, &ray), Some(((0, 0, 0), 0)));
    let stored = w.chunks.get(&(0, 0, 0)).unwrap();
    assert_eq!(stored[5 * 1024 + 5 * 32 + 5], 0);
    assert_eq!(stored[5 * 1024 + 5 * 32 + 31], 3);
}

#[test]
fn a_miss_leaves_the_whole_world_alone() {
    let mut w = WorldData::new();
    w.add_object((0, 0, 0));
    w.active_chunks.push(0);
    w.chunk_update_queue.push(0);
    let chunks: PositionMap<Vec<i8>> = PositionMap::new();
    let ray = vec![(0, 0, 0), (40, 0, 0)];
    assert_eq!(break_block(&mut w, &chunks, &ray), None);
    assert_eq!(place_block(&mut w, &chunks, &ray, 99, &Inventory::new()), None);
    assert_eq!(w.active_chunks, vec![0]);
    assert_eq!(w.chunk_update_queue, vec![0]);
    assert_eq!(w.chunk_buffer_coordinates, vec![(0, 0, 0)]);
    assert_eq!(w.chunks.len(), 0);
}

#[test]
fn registering_blocks_leaves_the_loaded_world_alone() {
    let mut w = WorldData::new();
    w.add_object((1, 2, 3));
    w.chunk_update_queue.push(0);
    w.active_chunks.push(0);
    w.add_block("stone".to_string(), vec![0; 6], "p".to_string(), "cube".to_string(), false, false, true);
    w.add_shape("cube".to_string(), Vec::new());
    w.add_structure("oak".to_string(), Vec::new());
    assert_eq!(w.chunk_update_queue, vec![0]);
    assert_eq!(w.active_chunks, vec![0]);
    assert_eq!(w.chunk_buffer_coordinates, vec![(1, 2, 3)]);
}

#[test]
fn can_edit_needs_buffers_across_touched_faces() {
    let mut w = WorldData::new();
    assert!(can_edit(&w, (1, 1, 1)));
    assert!(!can_edit(&w, (0, 1, 1)));
    w.add_object((-1, 0, 0));
    assert!(can_edit(&w, (0, 1, 1)));
    assert!(!can_edit(&w, (0, 31, 1)));
}

#[test]
fn cube_triangles_turn_outward() {
    let p = polydural::vertex_data::cube_positions();
    let n = polydural::vertex_data::cube_normals();
    for t in 0..12 {
        let (a, b, c) = (p[3 * t], p[3 * t + 1], p[3 * t + 2]);
        let u: Vec<i32> = (0..3).map(|k| (b[k] - a[k]) as i32).collect();
        let v: Vec<i32> = (0..3).map(|k| (c[k] - a[k]) as i32).collect();
        let cross = [u[1] * v[2] - u[2] * v[1], u[2] * v[0] - u[0] * v[2], u[0] * v[1] - u[1] * v[0]];
        let dot: i32 = (0..3).map(|k| cross[k] * n[3 * t][k] as i32).sum();
        assert_eq!(dot, 4);
    }
}

#[test]
fn drawable_chunks_need_registered_blocks_and_ready_neighbours() {
    let mut w = registry();
    w.add_shape("cube".to_string(), Vec::new());
    let mut chunks: PositionMap<Vec<i8>> = PositionMap::new();
    let chunk = set_block(air(), 1, 1, 1, 3);
    assert!(chunk_drawable_exec(&chunk, &chunks, &w, 0, 0, 0));
    assert!(!chunk_drawable_exec(&set_block(air(), 1, 1, 1, 4), &chunks, &w, 0, 0, 0));
    assert!(!chunk_drawable_exec(&vec![0; 10], &chunks, &w, 0, 0, 0));
    chunks.insert((5, 5, 5), vec![100; 3]);
    assert!(chunk_drawable_exec(&chunk, &chunks, &w, 0, 0, 0));
    chunks.insert((0, 1, 0), vec![0; 3]);
    assert!(!chunk_drawable_exec(&chunk, &chunks, &w, 0, 0, 0));
    chunks.insert((0, 1, 0), set_block(air(), 0, 0, 0, 3));
    assert!(chunk_drawable_exec(&chunk, &chunks, &w, 0, 0, 0));
    assert!(!chunk_drawable_exec(&chunk, &chunks, &w, i64::MAX, 0, 0));
}

#[test]
fn float_wav_files_are_left_to_the_caller() {
    let spec = hound::WavSpec { channels: 1, sample_rate: 8000, bits_per_sample: 32, sample_format: hound::SampleFormat::Float };
    let mut bytes = Cursor::new(Vec::new());
    {
        let mut writer = hound::WavWriter::new(&mut bytes, spec).unwrap();
        writer.write_sample(0.5f32).unwrap();
        writer.finalize().unwrap();
    }
    assert_eq!(handle_audio_data_wav(&bytes.into_inner()), None);
}

#[test]
fn digit_keys_pick_hotbar_slots() {
    assert_eq!(polydural::containers::slot_for_digit(1), Some(0));
    assert_eq!(polydural::containers::slot_for_digit(9), Some(8));
    assert_eq!(polydural::containers::slot_for_digit(0), None);
    assert_eq!(polydural::containers::slot_for_digit(10), None);
}

#[test]
fn air_is_registered_as_block_zero() {
    let mut w = WorldData::new();
    w.chunk_update_queue.push(3);
    w.register_air();
    assert_eq!(w.block_index.get("air"), Some(&0));
    assert_eq!(w.chunk_update_queue, vec![3]);
    assert!(w.blocks.is_empty());
}

#[test]
fn the_activation_area_must_fit() {
    use_area((0, 0, 0), true);
    use_area((i64::MAX - 3, 0, 0), true);
    use_area((i64::MAX - 2, 0, 0), false);
    use_area((0, i64::MIN + 1, 0), false);
}

fn use_area(center: (i64, i64, i64), expected: bool) {
    assert_eq!(polydural::chunk_loading::area_fits_exec(center), expected);
}
