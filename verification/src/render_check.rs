use vstd::prelude::*;
use crate::chunk::{neighbour_offset, position_interior};
use crate::grid::{cell, inside, inside3, lemma_cell_bounds, locate, neighbours_sized, volume};
use crate::lit_chunk::{lit_renderable, located_id_valid, visit_coords};
use crate::position_map::{Position, PositionMap};
use crate::world::WorldData;

verus! {

/// Block id `b` is air, or a registered block whose shape is registered and
/// which has a tile for each of the six faces.
pub open spec fn id_drawable(world: WorldData, b: i8) -> bool {
    b == 0 || {
        &&& 1 <= b <= world.blocks@.len()
        &&& world.shape_index@.contains_key(world.blocks@[b - 1].shape@)
        &&& 1 <= world.shape_index@[world.blocks@[b - 1].shape@] <= world.shapes@.len()
        &&& world.blocks@[b - 1].sides@.len() >= 6
    }
}

/// The chunk at `p`, where it is loaded, holds a full block list of air and
/// registered block ids.
pub open spec fn neighbour_ready(chunks: Map<Position, Vec<i8>>, p: Position, world: WorldData) -> bool {
    chunks.contains_key(p) ==> {
        &&& chunks[p]@.len() >= volume(32)
        &&& forall|i: int| 0 <= i < volume(32) ==> 0 <= #[trigger] chunks[p]@[i] <= world.blocks@.len()
    }
}

/// The chunk at `c` with block list `chunk` can be meshed against its
/// neighbours in `chunks`: it lies clear of the ends of `i64`, is full, holds
/// only drawable ids, and each of its six face neighbours is ready.
pub open spec fn chunk_drawable(chunk: Seq<i8>, chunks: Map<Position, Vec<i8>>, world: WorldData, c: Position) -> bool {
    &&& position_interior(c)
    &&& chunk.len() >= volume(32)
    &&& forall|i: int| 0 <= i < volume(32) ==> id_drawable(world, #[trigger] chunk[i])
    &&& neighbour_ready(chunks, ((c.0 - 1) as i64, c.1, c.2), world)
    &&& neighbour_ready(chunks, ((c.0 + 1) as i64, c.1, c.2), world)
    &&& neighbour_ready(chunks, (c.0, (c.1 - 1) as i64, c.2), world)
    &&& neighbour_ready(chunks, (c.0, (c.1 + 1) as i64, c.2), world)
    &&& neighbour_ready(chunks, (c.0, c.1, (c.2 - 1) as i64), world)
    &&& neighbour_ready(chunks, (c.0, c.1, (c.2 + 1) as i64), world)
}

/// A lookup that ends in another chunk ends in one of the six face
/// neighbours, at a cell within a full block list.
proof fn lemma_located_neighbour(chunk: Seq<i8>, chunks: Map<Position, Vec<i8>>, x: int, y: int, z: int, c: Position)
    ensures
        locate(32, chunk, chunks, x, y, z, c) matches Some((Some(p), i)) ==> {
            &&& 0 <= i < volume(32)
            &&& (p == ((c.0 - 1) as i64, c.1, c.2) || p == ((c.0 + 1) as i64, c.1, c.2)
                || p == (c.0, (c.1 - 1) as i64, c.2) || p == (c.0, (c.1 + 1) as i64, c.2)
                || p == (c.0, c.1, (c.2 - 1) as i64) || p == (c.0, c.1, (c.2 + 1) as i64))
        },
        locate(32, chunk, chunks, x, y, z, c) matches Some((None, i)) ==> 0 <= i < volume(32),
{
    if inside3(32, x, y, z) {
        lemma_cell_bounds(32, x, y, z);
    } else if x < 0 && inside(32, y) && inside(32, z) {
        lemma_cell_bounds(32, 31, y, z);
    } else if y < 0 && inside(32, x) && inside(32, z) {
        lemma_cell_bounds(32, x, 31, z);
    } else if z < 0 && inside(32, x) && inside(32, y) {
        lemma_cell_bounds(32, x, y, 31);
    } else if x >= 32 && inside(32, y) && inside(32, z) {
        lemma_cell_bounds(32, 0, y, z);
    } else if y >= 32 && inside(32, x) && inside(32, z) {
        lemma_cell_bounds(32, x, 0, z);
    } else if z >= 32 && inside(32, x) && inside(32, y) {
        lemma_cell_bounds(32, x, y, 0);
    }
}

/// A drawable chunk can be rendered: it meets what `render_chunk` asks of
/// its blocks and of its neighbours.
pub proof fn lemma_drawable_renderable(chunk: Seq<i8>, chunks: Map<Position, Vec<i8>>, world: WorldData, c: Position)
    requires
        chunk_drawable(chunk, chunks, world, c),
    ensures
        lit_renderable(chunk, chunks, world, c),
        neighbours_sized(chunks, c, 32),
{
    assert forall|i: int, k: int| 0 <= i < volume(32) && 0 <= k < 6
        implies #[trigger] located_id_valid(chunk, chunks, world.blocks@, visit_coords(i).0 + neighbour_offset(k).0,
            visit_coords(i).1 + neighbour_offset(k).1, visit_coords(i).2 + neighbour_offset(k).2, c) by {
        let x = visit_coords(i).0 + neighbour_offset(k).0;
        let y = visit_coords(i).1 + neighbour_offset(k).1;
        let z = visit_coords(i).2 + neighbour_offset(k).2;
        lemma_located_neighbour(chunk, chunks, x, y, z, c);
        match locate(32, chunk, chunks, x, y, z, c) {
            Some((None, j)) => {
                assert(id_drawable(world, chunk[j]));
            },
            Some((Some(p), j)) => {
                assert(neighbour_ready(chunks, p, world));
                assert(0 <= chunks[p]@[j] <= world.blocks@.len());
            },
            None => {},
        }
    }
    assert forall|i: int| 0 <= i < volume(32) && #[trigger] chunk[i] != 0 implies {
        let b = chunk[i];
        &&& 1 <= b <= world.blocks@.len()
        &&& world.shape_index@.contains_key(world.blocks@[b - 1].shape@)
        &&& 1 <= world.shape_index@[world.blocks@[b - 1].shape@] <= world.shapes@.len()
    } by {
        assert(id_drawable(world, chunk[i]));
    }
    assert forall|i: int| 0 <= i < volume(32) implies #[trigger] chunk[cell(32, visit_coords(i).0, visit_coords(i).1, visit_coords(i).2)] == 0
        || world.blocks@[chunk[cell(32, visit_coords(i).0, visit_coords(i).1, visit_coords(i).2)] - 1].sides@.len() >= 6 by {
        assert(0 <= i / 1024 < 32) by (nonlinear_arith) requires 0 <= i < 32768;
        lemma_cell_bounds(32, visit_coords(i).0, visit_coords(i).1, visit_coords(i).2);
        assert(id_drawable(world, chunk[cell(32, visit_coords(i).0, visit_coords(i).1, visit_coords(i).2)]));
    }
}

/// Whether block id `b` is drawable, as `id_drawable` describes.
fn id_drawable_exec(world: &WorldData, b: i8) -> (r: bool)
    requires
        world.wf(),
    ensures
        r == id_drawable(*world, b),
{
    if b == 0 {
        return true;
    }
    if b < 1 || b as usize > world.blocks.len() {
        return false;
    }
    let definition = &world.blocks[b as usize - 1];
    match world.shape_index.get(definition.shape.as_str()) {
        Some(s) => 1 <= *s && *s <= world.shapes.len() && definition.sides.len() >= 6,
        None => false,
    }
}

/// Whether the chunk at `p` is ready, as `neighbour_ready` describes.
fn neighbour_ready_exec(chunks: &PositionMap<Vec<i8>>, p: Position, world: &WorldData) -> (r: bool)
    requires
        chunks.wf(),
    ensures
        r == neighbour_ready(chunks@, p, *world),
{
    match chunks.get(&p) {
        None => true,
        Some(data) => {
            if data.len() < 32768 {
                return false;
            }
            let mut i: usize = 0;
            while i < 32768
                invariant
                    i <= 32768,
                    data@.len() >= 32768,
                    *data == chunks@[p],
                    chunks@.contains_key(p),
                    forall|j: int| 0 <= j < i ==> 0 <= #[trigger] data@[j] <= world.blocks@.len(),
                decreases 32768 - i,
            {
                if data[i] < 0 || data[i] as usize > world.blocks.len() {
                    return false;
                }
                i = i + 1;
            }
            true
        },
    }
}

/// Whether the chunk at (cx, cy, cz) with block list `chunk` can be meshed
/// against its neighbours in `chunks`, as `chunk_drawable` describes.
pub fn chunk_drawable_exec(chunk: &Vec<i8>, chunks: &PositionMap<Vec<i8>>, world: &WorldData, cx: i64, cy: i64, cz: i64) -> (r: bool)
    requires
        chunks.wf(),
        world.wf(),
    ensures
        r == chunk_drawable(chunk@, chunks@, *world, (cx, cy, cz)),
{
    if cx == i64::MIN || cx == i64::MAX || cy == i64::MIN || cy == i64::MAX || cz == i64::MIN || cz == i64::MAX {
        return false;
    }
    if chunk.len() < 32768 {
        return false;
    }
    let mut i: usize = 0;
    while i < 32768
        invariant
            i <= 32768,
            chunk@.len() >= 32768,
            world.wf(),
            forall|j: int| 0 <= j < i ==> id_drawable(*world, #[trigger] chunk@[j]),
        decreases 32768 - i,
    {
        if !id_drawable_exec(world, chunk[i]) {
            return false;
        }
        i = i + 1;
    }
    neighbour_ready_exec(chunks, (cx - 1, cy, cz), world)
        && neighbour_ready_exec(chunks, (cx + 1, cy, cz), world)
        && neighbour_ready_exec(chunks, (cx, cy - 1, cz), world)
        && neighbour_ready_exec(chunks, (cx, cy + 1, cz), world)
        && neighbour_ready_exec(chunks, (cx, cy, cz - 1), world)
        && neighbour_ready_exec(chunks, (cx, cy, cz + 1), world)
}

} // verus!
