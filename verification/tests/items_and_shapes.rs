use polydural::common::{
    handle_biome_data, handle_model_data, handle_shape_data, handle_structure_data, BiomeData, Block, ModelData,
    ShapeData, StructureData, Textures,
};
use polydural::containers::{scroll_slot, Inventory};
use polydural::mesh::{push_face, tile_position, Mesh, Shade};
use polydural::objects::{create_vertices, vertex};
use polydural::position_map::PositionMap;
use polydural::vertex_data::{cube_normals, cube_positions};
use polydural::world::world::{create_world, World};
use polydural::world::WorldData;

#[test]
fn starting_hotbar() {
    let inv = Inventory::new();
    let names: Vec<&str> = inv.hotbar_slots.iter().map(|s| s.0.as_str()).collect();
    assert_eq!(
        names,
        vec!["dirt", "grass_1", "grass_2", "oak_leaves", "oak_log", "stone", "sand_1", "sand_2", "cactus"]
    );
    assert!(inv.hotbar_slots.iter().all(|s| s.1 == 9));
}

#[test]
fn slot_labels() {
    assert_eq!(Inventory::slot_label(1), "");
    assert_eq!(Inventory::slot_label(0), " 0");
    assert_eq!(Inventory::slot_label(5), " 5");
    assert_eq!(Inventory::slot_label(12), "12");
    assert_eq!(Inventory::slot_label(127), "127");
    assert_eq!(Inventory::slot_label(-3), "-3");
    assert_eq!(Inventory::slot_label(-128), "-128");
}

#[test]
fn item_block_mesh() {
    let mut w = WorldData::new();
    w.add_block("stone".to_string(), vec![9, 10, 11, 12, 13, 14], "p".to_string(), "cube".to_string(), false, false, true);
    let m = Inventory::render_item_block(&w, "stone".to_string());
    assert_eq!(m.vertices.len(), 36);
    assert!(m.colors.iter().all(|c| *c == Shade::Lit));
    // Tile 9 sits in column 1, row 1 of the atlas.
    assert_eq!(m.uvs[0], (1, 2));
    assert_eq!(m.vertices[0], (1, -1, 1));
    let m = Inventory::render_item_block(&w, "air".to_string());
    assert_eq!(m.vertices.len(), 0);
}

#[test]
fn cube_mesh_tables() {
    let p = cube_positions();
    let n = cube_normals();
    assert_eq!(p.len(), 36);
    assert_eq!(n.len(), 36);
    assert_eq!(p[0], [-1, -1, 1]);
    assert_eq!(p[5], [1, 1, 1]);
    assert_eq!(p[6], [1, -1, 1]);
    assert_eq!(p[35], [1, -1, 1]);
    assert_eq!(n[0], [0, 0, 1]);
    assert_eq!(n[6], [1, 0, 0]);
    assert_eq!(n[12], [0, 0, -1]);
    assert_eq!(n[18], [-1, 0, 0]);
    assert_eq!(n[24], [0, 1, 0]);
    assert_eq!(n[30], [0, -1, 0]);
    // Every corner lies on the face its normal points out of.
    for i in 0..36 {
        let dot: i32 = (0..3).map(|k| p[i][k] as i32 * n[i][k] as i32).sum();
        assert_eq!(dot, 1);
    }
}

#[test]
fn vertices_pair_positions_with_normals() {
    let v = vertex([1, 2, 3], [0, 1, 0]);
    assert_eq!(v.position, [1, 2, 3, 1]);
    assert_eq!(v.normal, [0, 1, 0, 1]);
    let data = create_vertices(cube_positions(), cube_normals());
    assert_eq!(data.len(), 36);
    assert_eq!(data[7].position, [1, -1, -1, 1]);
    assert_eq!(data[7].normal, [1, 0, 0, 1]);
}

#[test]
fn tile_positions() {
    assert_eq!(tile_position(0), (0, 0));
    assert_eq!(tile_position(9), (1, 1));
    assert_eq!(tile_position(63), (7, 7));
    assert_eq!(tile_position(-1), (-1, -1));
    assert_eq!(tile_position(-9), (-1, -2));
}

#[test]
fn push_face_adds_six_vertices() {
    let mut m = Mesh::new();
    push_face(&mut m, 2, 4, 6, 8, 3, &vec![true, false, false, false, false, false]);
    assert_eq!(m.vertices.len(), 6);
    assert_eq!(m.vertices[0], (3, 7, 9));
    assert_eq!(m.normals[0], (0, 1, 0));
    assert_eq!(m.colors[0], Shade::Occluded);
    assert_eq!(m.colors[1], Shade::Lit);
    assert_eq!(m.uvs[1], (4, 1));
}

#[test]
fn texture_variants() {
    let single = Textures::Single { top: 1, left: 2, right: 3, front: 4, back: 5, bottom: 6 };
    assert_eq!((single.top(), single.left(), single.right(), single.front(), single.back(), single.bottom()), (1, 2, 3, 4, 5, 6));
    let individual = Textures::Individual { top: 1, sides: 7, bottom: 2 };
    assert_eq!((individual.top(), individual.left(), individual.back(), individual.bottom()), (1, 7, 7, 2));
    let uniform = Textures::Uniform { all: 3 };
    assert_eq!((uniform.top(), uniform.front(), uniform.bottom()), (3, 3, 3));
}

#[test]
fn model_files_register_blocks_with_face_tiles() {
    let mut w = WorldData::new();
    let model = ModelData {
        block_name: "log".to_string(),
        creator: "p".to_string(),
        textures: Textures::Single { top: 1, left: 2, right: 3, front: 4, back: 5, bottom: 6 },
        shape: "cube".to_string(),
        sides: false,
        transparent: false,
        collide: true,
    };
    handle_model_data(&mut w, model);
    assert_eq!(w.blocks.len(), 1);
    assert_eq!(w.blocks[0].sides, vec![3, 2, 1, 6, 4, 5]);
    assert_eq!(w.block_index.get("log"), Some(&1));
}

#[test]
fn other_data_files_register_once() {
    let mut w = WorldData::new();
    handle_shape_data(&mut w, ShapeData { shape_name: "cube".to_string(), elements: Vec::new() });
    handle_shape_data(&mut w, ShapeData { shape_name: "cube".to_string(), elements: Vec::new() });
    assert_eq!(w.shapes.len(), 1);
    handle_structure_data(&mut w, StructureData {
        structure_name: "tree".to_string(),
        blocks: vec![Block { position: [0, 1, 0], block: "oak_log".to_string() }],
    });
    handle_structure_data(&mut w, StructureData { structure_name: "tree".to_string(), blocks: Vec::new() });
    assert_eq!(w.structures.get("tree").map(|b| b.len()), Some(1));
    let biome = |name: &str, t: i8| BiomeData {
        biome_name: name.to_string(),
        temperature: t,
        moisture: 0,
        height: 0,
        block_levels: vec![(vec!["stone".to_string()], 0)],
        sea_level: 0,
        trees: Vec::new(),
        folliage: Vec::new(),
        buildings: Vec::new(),
    };
    handle_biome_data(&mut w, biome("plains", 20));
    handle_biome_data(&mut w, biome("plains", 90));
    assert_eq!(w.biomes.get("plains").map(|b| b.temperature), Some(20));
}

#[test]
fn worlds_start_empty() {
    let w = World::new();
    assert!(w.get_objects().is_empty());
    let w = create_world();
    assert!(w.get_objects().is_empty());
}

#[test]
fn position_map_keeps_first_insertion_order() {
    let mut m: PositionMap<u8> = PositionMap::new();
    m.insert((1, 2, 3), 1);
    m.insert((0, 0, 0), 2);
    m.insert((1, 2, 3), 3);
    assert_eq!(m.len(), 2);
    assert_eq!(m.get(&(1, 2, 3)), Some(&3));
    assert_eq!(m.pop_first(), Some(((1, 2, 3), 3)));
    assert_eq!(m.pop_first(), Some(((0, 0, 0), 2)));
    assert_eq!(m.pop_first(), None);
    assert!(!m.contains_key(&(0, 0, 0)));
}

#[test]
fn scrolling_wraps_around_the_hotbar() {
    assert_eq!(scroll_slot(4, 1), 3);
    assert_eq!(scroll_slot(4, -1), 5);
    assert_eq!(scroll_slot(0, 1), 8);
    assert_eq!(scroll_slot(8, -1), 0);
    assert_eq!(scroll_slot(2, 5), 8);
    assert_eq!(scroll_slot(6, -30), 0);
}
