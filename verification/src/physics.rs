use vstd::prelude::*;
use crate::grid::{block_at, lookup_in_range, cell_in_range, locate, locate_exec, step_fits, volume, cell_location, locate_cell};
use crate::lit_chunk::located_id_valid;
use crate::position_map::{Position, PositionMap};
use crate::world::BlockDefinition;

verus! {

/// Whether the cell that a lookup of (x, y, z) finds stops the player: a
/// block does when its definition says it collides, air does not, and a cell
/// in no loaded chunk does.
pub open spec fn collides_at(chunk: Seq<i8>, chunks: Map<Position, Vec<i8>>, blocks: Seq<BlockDefinition>, x: int, y: int, z: int, c: Position) -> bool {
    let b = block_at(32, chunk, chunks, x, y, z, c);
    if locate(32, chunk, chunks, x, y, z, c) is None {
        true
    } else if b == 0 {
        false
    } else {
        blocks[b - 1].collide
    }
}

/// Whether the cell at (x, y, z) relative to the 32-cell chunk at
/// (cx, cy, cz) stops the player, as `collides_at` describes.
pub fn get_block(chunk: &Vec<i8>, x: i64, y: i64, z: i64, chunks: &PositionMap<Vec<i8>>, blocks: &Vec<BlockDefinition>, chunk_position_x: i64, chunk_position_y: i64, chunk_position_z: i64) -> (solid: bool)
    requires
        chunks.wf(),
        lookup_in_range(32, chunk@, chunks@, x as int, y as int, z as int, (chunk_position_x, chunk_position_y, chunk_position_z)),
        step_fits(32, x as int, y as int, z as int, (chunk_position_x, chunk_position_y, chunk_position_z)),
        located_id_valid(chunk@, chunks@, blocks@, x as int, y as int, z as int, (chunk_position_x, chunk_position_y, chunk_position_z)),
    ensures
        solid == collides_at(chunk@, chunks@, blocks@, x as int, y as int, z as int, (chunk_position_x, chunk_position_y, chunk_position_z)),
{
    let found = match locate_exec(32, chunk, chunks, x, y, z, chunk_position_x, chunk_position_y, chunk_position_z) {
        Some((None, i)) => chunk[i],
        Some((Some(v), i)) => v[i],
        None => return true,
    };
    if found == 0 {
        return false;
    }
    blocks[(found - 1) as usize].collide
}

/// Whether world cell `p` stops the player: a block of its loaded chunk
/// stops it when its definition says it collides, air does not; a cell in
/// no loaded chunk does.
pub open spec fn collides_at_cell(chunks: Map<Position, Vec<i8>>, blocks: Seq<BlockDefinition>, p: Position) -> bool {
    let (c, i) = cell_location(p, 32);
    if !chunks.contains_key(c) {
        true
    } else if chunks[c]@[i] == 0 {
        false
    } else {
        blocks[chunks[c]@[i] - 1].collide
    }
}

/// The block at world cell `p` is air, unloaded or registered.
pub open spec fn cell_id_valid(chunks: Map<Position, Vec<i8>>, blocks: Seq<BlockDefinition>, p: Position) -> bool {
    let (c, i) = cell_location(p, 32);
    chunks.contains_key(c) ==> 0 <= chunks[c]@[i] <= blocks.len()
}

/// Whether world cell (x, y, z) stops the player, as `collides_at_cell`
/// describes. The cell of a world position is its coordinates plus one
/// half, rounded down.
pub fn get_block_global(chunks: &PositionMap<Vec<i8>>, blocks: &Vec<BlockDefinition>, x: i64, y: i64, z: i64) -> (solid: bool)
    requires
        chunks.wf(),
        cell_in_range(chunks@, (x, y, z), 32),
        cell_id_valid(chunks@, blocks@, (x, y, z)),
    ensures
        solid == collides_at_cell(chunks@, blocks@, (x, y, z)),
{
    let (_c, i, found) = locate_cell(chunks, 32, (x, y, z));
    match found {
        Some(chunk) => {
            let b = chunk[i];
            if b == 0 {
                false
            } else {
                blocks[(b - 1) as usize].collide
            }
        },
        None => true,
    }
}

} // verus!
