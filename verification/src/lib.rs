//! Block-world engine logic: chunk storage and lookup, chunk meshing,
//! terrain and light generation, the block registry and the player's
//! inventory, each with a contract proved by Verus.

pub mod position_map;
pub mod common;
pub mod grid;
pub mod world;
pub mod mesh;
pub mod chunk;
pub mod lit_chunk;
pub mod vertex_data;
pub mod objects;
pub mod containers;
pub mod physics;
pub mod interact;
pub mod chunk_loading;
pub mod biome_terrain;
pub mod media;
pub mod render_check;
