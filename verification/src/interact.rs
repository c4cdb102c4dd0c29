use vstd::prelude::*;
use crate::chunk::{block_at_cell, position_interior};
use crate::containers::Inventory;
use crate::grid::{cell_in_range, cell_location, local_of, locate_cell, sized_at, split_coordinate};
use crate::lit_chunk::set_block;
use crate::position_map::{Position, PositionMap};
use crate::world::WorldData;

verus! {

/// Whether the view ray stops at world cell `p`: it holds a block (neither
/// air nor in an unloaded chunk).
pub open spec fn hit(chunks: Map<Position, Vec<i8>>, p: Position) -> bool {
    let b = block_at_cell(chunks, p, 32);
    b != 0 && b != -1
}

/// The index of the first cell of `ray` from index `k` on where the ray
/// stops.
pub open spec fn first_hit_from(chunks: Map<Position, Vec<i8>>, ray: Seq<Position>, k: int) -> Option<int>
    decreases ray.len() - k,
{
    if k >= ray.len() || k < 0 {
        None
    } else if hit(chunks, ray[k]) {
        Some(k)
    } else {
        first_hit_from(chunks, ray, k + 1)
    }
}

/// No cell of `ray` before index `k` stops the ray.
pub open spec fn clear_before(chunks: Map<Position, Vec<i8>>, ray: Seq<Position>, k: int) -> bool {
    forall|m: int| 0 <= m < k ==> !#[trigger] hit(chunks, ray[m])
}

/// Every cell that a walk along `ray` reads, up to the first where it
/// stops, lies within its chunk's block list where that chunk is loaded.
pub open spec fn ray_readable(chunks: Map<Position, Vec<i8>>, ray: Seq<Position>) -> bool {
    forall|k: int| 0 <= k < ray.len() && clear_before(chunks, ray, k) ==> cell_in_range(chunks, #[trigger] ray[k], 32)
}

/// The index of the first cell of `ray` where the ray stops, if any.
pub fn first_block_hit(chunks: &PositionMap<Vec<i8>>, ray: &Vec<Position>) -> (r: Option<usize>)
    requires
        chunks.wf(),
        ray_readable(chunks@, ray@),
    ensures
        match r {
            Some(k) => first_hit_from(chunks@, ray@, 0) == Some(k as int),
            None => first_hit_from(chunks@, ray@, 0) is None,
        },
{
    let mut k: usize = 0;
    while k < ray.len()
        invariant
            chunks.wf(),
            ray_readable(chunks@, ray@),
            k <= ray@.len(),
            clear_before(chunks@, ray@, k as int),
            first_hit_from(chunks@, ray@, 0) == first_hit_from(chunks@, ray@, k as int),
        decreases ray@.len() - k,
    {
        let p = ray[k];
        assert(cell_in_range(chunks@, ray@[k as int], 32));
        let b = crate::lit_chunk::get_block_global(chunks, p.0, p.1, p.2);
        if b != 0 && b != -1 {
            return Some(k);
        }
        assert(clear_before(chunks@, ray@, k as int + 1)) by {
            assert forall|m: int| 0 <= m < k as int + 1 implies !#[trigger] hit(chunks@, ray@[m]) by {
                if m < k as int {
                    assert(!hit(chunks@, ray@[m]));
                }
            }
        }
        k = k + 1;
    }
    None
}

/// The chunks whose meshes show the faces next to local cell (x, y, z) of
/// the 32-cell chunk at `c`: across the x face it touches, then the y face,
/// then the z face.
pub open spec fn boundary_neighbours(c: Position, x: int, y: int, z: int) -> Seq<Position> {
    let px: Seq<Position> = if x == 0 { seq![((c.0 - 1) as i64, c.1, c.2)] } else if x == 31 { seq![((c.0 + 1) as i64, c.1, c.2)] } else { Seq::empty() };
    let py: Seq<Position> = if y == 0 { seq![(c.0, (c.1 - 1) as i64, c.2)] } else if y == 31 { seq![(c.0, (c.1 + 1) as i64, c.2)] } else { Seq::empty() };
    let pz: Seq<Position> = if z == 0 { seq![(c.0, c.1, (c.2 - 1) as i64)] } else if z == 31 { seq![(c.0, c.1, (c.2 + 1) as i64)] } else { Seq::empty() };
    px + py + pz
}

/// The render buffers of `positions`, as the world's index gives them.
pub open spec fn buffers_of(index: Map<Position, i64>, positions: Seq<Position>) -> Seq<usize> {
    positions.map_values(|p: Position| index[p] as usize)
}

fn push_buffer(world_data: &mut WorldData, p: Position)
    requires
        old(world_data).wf(),
        old(world_data).chunk_buffer_index@.contains_key(p),
    ensures
        final(world_data).wf(),
        final(world_data).chunk_update_queue@ == old(world_data).chunk_update_queue@.push(old(world_data).chunk_buffer_index@[p] as usize),
        final(world_data).chunks == old(world_data).chunks,
        final(world_data).same_except_edit(old(world_data)),
{
    let index: i64 = match world_data.chunk_buffer_index.get(&p) {
        Some(v) => *v,
        None => 0,
    };
    world_data.chunk_update_queue.push(index as usize);
}

/// The chunks across the faces that local cell (x, y, z) of the chunk at
/// `c` touches, as `boundary_neighbours` lists them.
fn boundary_neighbour_list(c: Position, x: i8, y: i8, z: i8) -> (r: Vec<Position>)
    requires
        position_interior(c),
    ensures
        r@ == boundary_neighbours(c, x as int, y as int, z as int),
{
    let mut r: Vec<Position> = Vec::new();
    if x == 0 {
        r.push((c.0 - 1, c.1, c.2));
    } else if x == 31 {
        r.push((c.0 + 1, c.1, c.2));
    }
    let ghost px = r@;
    if y == 0 {
        r.push((c.0, c.1 - 1, c.2));
    } else if y == 31 {
        r.push((c.0, c.1 + 1, c.2));
    }
    let ghost pxy = r@;
    if z == 0 {
        r.push((c.0, c.1, c.2 - 1));
    } else if z == 31 {
        r.push((c.0, c.1, c.2 + 1));
    }
    proof {
        let py: Seq<Position> = if y == 0 { seq![(c.0, (c.1 - 1) as i64, c.2)] } else if y == 31 { seq![(c.0, (c.1 + 1) as i64, c.2)] } else { Seq::empty() };
        let pz: Seq<Position> = if z == 0 { seq![(c.0, c.1, (c.2 - 1) as i64)] } else if z == 31 { seq![(c.0, c.1, (c.2 + 1) as i64)] } else { Seq::empty() };
        assert(pxy =~= px + py);
        assert(r@ =~= px + py + pz);
    }
    r
}

/// Queues for re-rendering the neighbouring chunks whose faces touch local
/// cell (x, y, z) of the chunk at `c`.
pub fn queue_boundary_updates(world_data: &mut WorldData, c: Position, x: i8, y: i8, z: i8)
    requires
        old(world_data).wf(),
        position_interior(c),
        forall|k: int| 0 <= k < boundary_neighbours(c, x as int, y as int, z as int).len()
            ==> old(world_data).chunk_buffer_index@.contains_key(#[trigger] boundary_neighbours(c, x as int, y as int, z as int)[k]),
    ensures
        final(world_data).wf(),
        final(world_data).chunk_update_queue@ == old(world_data).chunk_update_queue@
            + buffers_of(old(world_data).chunk_buffer_index@, boundary_neighbours(c, x as int, y as int, z as int)),
        final(world_data).chunks == old(world_data).chunks,
        final(world_data).same_except_edit(old(world_data)),
{
    let neighbours = boundary_neighbour_list(c, x, y, z);
    let ghost index = world_data.chunk_buffer_index@;
    let ghost start = world_data.chunk_update_queue@;
    let ghost w0 = *world_data;
    let mut k: usize = 0;
    while k < neighbours.len()
        invariant
            k <= neighbours@.len(),
            world_data.wf(),
            forall|j: int| 0 <= j < neighbours@.len() ==> index.contains_key(#[trigger] neighbours@[j]),
            world_data.chunk_buffer_index@ == index,
            world_data.chunk_update_queue@ == start + buffers_of(index, neighbours@.take(k as int)),
            world_data.chunks == w0.chunks,
            world_data.same_except_edit(&w0),
        decreases neighbours@.len() - k,
    {
        push_buffer(world_data, neighbours[k]);
        assert(neighbours@.take(k as int + 1) =~= neighbours@.take(k as int).push(neighbours@[k as int]));
        assert(buffers_of(index, neighbours@.take(k as int + 1)) =~= buffers_of(index, neighbours@.take(k as int)).push(index[neighbours@[k as int]] as usize));
        k = k + 1;
    }
    assert(neighbours@.take(k as int) =~= neighbours@);
}

/// The render buffer of the chunk at `c`, or 0 where it has none.
pub open spec fn buffer_or_zero(index: Map<Position, i64>, c: Position) -> usize {
    if index.contains_key(c) { index[c] as usize } else { 0 }
}

/// The local coordinates of world cell `p` in its 32-cell chunk.
pub open spec fn local_cell(p: Position) -> (int, int, int) {
    (local_of(p.0 as int, 32), local_of(p.1 as int, 32), local_of(p.2 as int, 32))
}

/// What an edit of world cell `p` to `block` needs: the cell's chunk lies
/// clear of the ends of `i64` and the chunks across the faces the cell
/// touches have render buffers.
pub open spec fn edit_possible(world: WorldData, p: Position) -> bool {
    let (c, _i) = cell_location(p, 32);
    let (x, y, z) = local_cell(p);
    &&& position_interior(c)
    &&& forall|k: int| 0 <= k < boundary_neighbours(c, x, y, z).len()
        ==> world.chunk_buffer_index@.contains_key(#[trigger] boundary_neighbours(c, x, y, z)[k])
}

/// Whether world cell `p` can be edited, as `edit_possible` describes.
pub fn can_edit(world_data: &WorldData, p: Position) -> (b: bool)
    requires
        world_data.wf(),
    ensures
        b == edit_possible(*world_data, p),
{
    let (cx, lx) = split_coordinate(p.0, 32);
    let (cy, ly) = split_coordinate(p.1, 32);
    let (cz, lz) = split_coordinate(p.2, 32);
    let c: Position = (cx, cy, cz);
    assert(c == cell_location(p, 32).0);
    assert((lx as int, ly as int, lz as int) == local_cell(p));
    if cx == i64::MIN || cx == i64::MAX || cy == i64::MIN || cy == i64::MAX || cz == i64::MIN || cz == i64::MAX {
        return false;
    }
    let neighbours = boundary_neighbour_list(c, lx as i8, ly as i8, lz as i8);
    let mut k: usize = 0;
    while k < neighbours.len()
        invariant
            k <= neighbours@.len(),
            world_data.wf(),
            neighbours@ == boundary_neighbours(c, lx as int, ly as int, lz as int),
            c == cell_location(p, 32).0,
            (lx as int, ly as int, lz as int) == local_cell(p),
            position_interior(c),
            forall|j: int| 0 <= j < k ==> world_data.chunk_buffer_index@.contains_key(#[trigger] neighbours@[j]),
        decreases neighbours@.len() - k,
    {
        if !world_data.chunk_buffer_index.contains_key(&neighbours[k]) {
            assert(!edit_possible(*world_data, p)) by {
                let (c2, _i) = cell_location(p, 32);
                let (x2, y2, z2) = local_cell(p);
                assert(c2 == c && x2 == lx as int && y2 == ly as int && z2 == lz as int);
                assert(0 <= k < boundary_neighbours(c2, x2, y2, z2).len());
                assert(!world_data.chunk_buffer_index@.contains_key(boundary_neighbours(c2, x2, y2, z2)[k as int]));
            }
            return false;
        }
        k = k + 1;
    }
    true
}

/// Writes `block` into world cell `p` where its chunk is loaded in
/// `chunks`: the edited copy of the chunk is stored in the world, the
/// neighbouring chunks whose faces touch the cell are queued for
/// re-rendering, and the chunk position is returned with its render buffer
/// (0 where it has none).
pub fn edit_block(world_data: &mut WorldData, chunks: &PositionMap<Vec<i8>>, p: Position, block: i8) -> (r: Option<(Position, usize)>)
    requires
        old(world_data).wf(),
        chunks.wf(),
        cell_in_range(chunks@, p, 32),
        chunks@.contains_key(cell_location(p, 32).0) ==> edit_possible(*old(world_data), p),
    ensures
        final(world_data).wf(),
        ({
            let (c, i) = cell_location(p, 32);
            let (x, y, z) = local_cell(p);
            if chunks@.contains_key(c) {
                &&& r == Some((c, buffer_or_zero(old(world_data).chunk_buffer_index@, c)))
                &&& final(world_data).chunks@ == old(world_data).chunks@.insert(c, final(world_data).chunks@[c])
                &&& final(world_data).chunks@[c]@ == chunks@[c]@.update(i, block)
                &&& final(world_data).chunk_update_queue@ == old(world_data).chunk_update_queue@
                    + buffers_of(old(world_data).chunk_buffer_index@, boundary_neighbours(c, x, y, z))
            } else {
                &&& r is None
                &&& *final(world_data) == *old(world_data)
            }
        }),
        final(world_data).same_except_edit(old(world_data)),
{
    let (cx, lx) = split_coordinate(p.0, 32);
    let (cy, ly) = split_coordinate(p.1, 32);
    let (cz, lz) = split_coordinate(p.2, 32);
    let c: Position = (cx, cy, cz);
    match chunks.get(&c) {
        None => None,
        Some(chunk) => {
            let x = lx as i8;
            let y = ly as i8;
            let z = lz as i8;
            assert(c == cell_location(p, 32).0);
            assert((x as int, y as int, z as int) == local_cell(p));
            assert(edit_possible(*old(world_data), p));
            let new_chunk = set_block(chunk.clone(), x, y, z, block);
            world_data.set_chunk(cx, cy, cz, new_chunk);
            assert(world_data.chunk_buffer_index@ == old(world_data).chunk_buffer_index@);
            assert forall|k: int| 0 <= k < boundary_neighbours(c, x as int, y as int, z as int).len()
                implies world_data.chunk_buffer_index@.contains_key(#[trigger] boundary_neighbours(c, x as int, y as int, z as int)[k]) by {
                let (c2, _i) = cell_location(p, 32);
                let (x2, y2, z2) = local_cell(p);
                assert(c2 == c && x2 == x as int && y2 == y as int && z2 == z as int);
                assert(old(world_data).chunk_buffer_index@.contains_key(boundary_neighbours(c2, x2, y2, z2)[k]));
            }
            queue_boundary_updates(world_data, c, x, y, z);
            let buffer: usize = match world_data.chunk_buffer_index.get(&c) {
                Some(v) => *v as usize,
                None => 0,
            };
            Some((c, buffer))
        },
    }
}

/// Breaks the first block along the view ray `ray` (the world cells it
/// passes, nearest first): writes air into it (see `edit_block`) and
/// returns its chunk and render buffer; nothing when the ray meets no block.
pub fn break_block(world_data: &mut WorldData, chunks: &PositionMap<Vec<i8>>, ray: &Vec<Position>) -> (r: Option<(Position, usize)>)
    requires
        old(world_data).wf(),
        chunks.wf(),
        ray_readable(chunks@, ray@),
        match first_hit_from(chunks@, ray@, 0) {
            Some(k) => old(world_data).block_index@.contains_key("air"@) && edit_possible(*old(world_data), ray@[k]),
            None => true,
        },
    ensures
        final(world_data).wf(),
        match first_hit_from(chunks@, ray@, 0) {
            Some(k) => {
                let p = ray@[k];
                let (c, i) = cell_location(p, 32);
                let (x, y, z) = local_cell(p);
                &&& r == Some((c, buffer_or_zero(old(world_data).chunk_buffer_index@, c)))
                &&& final(world_data).chunks@ == old(world_data).chunks@.insert(c, final(world_data).chunks@[c])
                &&& final(world_data).chunks@[c]@ == chunks@[c]@.update(i, old(world_data).block_index@["air"@] as i8)
                &&& final(world_data).chunk_update_queue@ == old(world_data).chunk_update_queue@
                    + buffers_of(old(world_data).chunk_buffer_index@, boundary_neighbours(c, x, y, z))
            },
            None => {
                &&& r is None
                &&& *final(world_data) == *old(world_data)
            },
        },
        final(world_data).same_except_edit(old(world_data)),
{
    match first_block_hit(chunks, ray) {
        None => None,
        Some(k) => {
            proof { lemma_first_hit(chunks@, ray@, 0); }
            assert(first_hit_from(chunks@, ray@, 0) == Some(k as int));
            let air: usize = match world_data.block_index.get("air") {
                Some(v) => *v,
                None => 0,
            };
            let p = ray[k];
            assert(hit(chunks@, ray@[k as int]));
            assert(clear_before(chunks@, ray@, k as int));
            assert(cell_in_range(chunks@, ray@[k as int], 32));
            proof { lemma_located_chunk_loaded(chunks@, p); }
            edit_block(world_data, chunks, p, air as i8)
        },
    }
}

/// A cell where the ray stops lies in a loaded chunk.
proof fn lemma_located_chunk_loaded(chunks: Map<Position, Vec<i8>>, p: Position)
    requires
        hit(chunks, p),
    ensures
        chunks.contains_key(cell_location(p, 32).0),
{
}

proof fn lemma_first_hit(chunks: Map<Position, Vec<i8>>, ray: Seq<Position>, k: int)
    requires
        0 <= k,
    ensures
        match first_hit_from(chunks, ray, k) {
            Some(j) => k <= j < ray.len() && hit(chunks, ray[j])
                && forall|m: int| k <= m < j ==> !#[trigger] hit(chunks, ray[m]),
            None => forall|m: int| k <= m < ray.len() ==> !#[trigger] hit(chunks, ray[m]),
        },
    decreases ray.len() - k,
{
    if k < ray.len() && !hit(chunks, ray[k]) {
        lemma_first_hit(chunks, ray, k + 1);
    }
}

/// What an edit leaves behind: where the chunk of world cell `p`, as read
/// from `chunks`, is stored in the world with block `b` at the cell, the
/// world reads `b` at `p`, reads every other cell of that chunk as `chunks`
/// had it, and reads every cell of every other chunk as before.
pub proof fn lemma_edit_then_read(world_chunks: Map<Position, Vec<i8>>, chunks: Map<Position, Vec<i8>>,
    p: Position, b: i8, new_chunk: Vec<i8>, q: Position)
    requires
        sized_at(chunks, cell_location(p, 32).0, 32),
        chunks.contains_key(cell_location(p, 32).0),
        new_chunk@ == chunks[cell_location(p, 32).0]@.update(cell_location(p, 32).1, b),
    ensures
        block_at_cell(world_chunks.insert(cell_location(p, 32).0, new_chunk), p, 32) == b,
        q != p && cell_location(q, 32).0 == cell_location(p, 32).0
            ==> block_at_cell(world_chunks.insert(cell_location(p, 32).0, new_chunk), q, 32) == block_at_cell(chunks, q, 32),
        cell_location(q, 32).0 != cell_location(p, 32).0
            ==> block_at_cell(world_chunks.insert(cell_location(p, 32).0, new_chunk), q, 32) == block_at_cell(world_chunks, q, 32),
{
    let (c, i) = cell_location(p, 32);
    crate::grid::lemma_cell_bounds(32, local_of(p.0 as int, 32), local_of(p.1 as int, 32), local_of(p.2 as int, 32));
    let (cq, iq) = cell_location(q, 32);
    crate::grid::lemma_cell_bounds(32, local_of(q.0 as int, 32), local_of(q.1 as int, 32), local_of(q.2 as int, 32));
    if q != p && cq == c && iq == i {
        crate::chunk::lemma_cell_location_injective(p, q, 32);
    }
}

/// The cell a block is placed in when the ray first stops at index `k`:
/// the cell before it along the ray, or the cell itself at the ray's start.
pub open spec fn place_index(k: int) -> int {
    if k > 0 { k - 1 } else { k }
}

/// The block the selected hotbar slot places: the registered id of the
/// slot's block name.
pub open spec fn slot_block(world: WorldData, inventory: Inventory, slot: int) -> i8 {
    world.block_index@[inventory.hotbar_slots@[slot].0@] as i8
}

/// Whether a block placed by a ray that first stops at index `k` can be
/// written: where the target cell's chunk is loaded, the selected slot
/// exists, its block name is registered and the cell can be edited.
pub open spec fn place_possible(world: WorldData, chunks: Map<Position, Vec<i8>>, ray: Seq<Position>, k: int,
    slot_selected: int, inventory: Inventory) -> bool {
    let p = ray[place_index(k)];
    chunks.contains_key(cell_location(p, 32).0) ==> {
        &&& 0 <= slot_selected < inventory.hotbar_slots@.len()
        &&& world.block_index@.contains_key(inventory.hotbar_slots@[slot_selected].0@)
        &&& edit_possible(world, p)
    }
}

/// Places the block of the selected hotbar slot in front of the first block
/// along the view ray `ray` (see `edit_block`): in the cell before it along
/// the ray, or in it when it is the first cell. Nothing happens when the
/// ray meets no block or the cell's chunk is not loaded.
pub fn place_block(world_data: &mut WorldData, chunks: &PositionMap<Vec<i8>>, ray: &Vec<Position>, slot_selected: i8, inventory: &Inventory) -> (r: Option<(Position, usize)>)
    requires
        old(world_data).wf(),
        chunks.wf(),
        ray_readable(chunks@, ray@),
        match first_hit_from(chunks@, ray@, 0) {
            Some(k) => place_possible(*old(world_data), chunks@, ray@, k, slot_selected as int, *inventory),
            None => true,
        },
    ensures
        final(world_data).wf(),
        match first_hit_from(chunks@, ray@, 0) {
            Some(k) => {
                let p = ray@[place_index(k)];
                let (c, i) = cell_location(p, 32);
                let (x, y, z) = local_cell(p);
                if chunks@.contains_key(c) {
                    &&& r == Some((c, buffer_or_zero(old(world_data).chunk_buffer_index@, c)))
                    &&& final(world_data).chunks@ == old(world_data).chunks@.insert(c, final(world_data).chunks@[c])
                    &&& final(world_data).chunks@[c]@ == chunks@[c]@.update(i, slot_block(*old(world_data), *inventory, slot_selected as int))
                    &&& final(world_data).chunk_update_queue@ == old(world_data).chunk_update_queue@
                        + buffers_of(old(world_data).chunk_buffer_index@, boundary_neighbours(c, x, y, z))
                } else {
                    &&& r is None
                    &&& *final(world_data) == *old(world_data)
                }
            },
            None => {
                &&& r is None
                &&& *final(world_data) == *old(world_data)
            },
        },
        final(world_data).same_except_edit(old(world_data)),
{
    match first_block_hit(chunks, ray) {
        None => None,
        Some(k) => {
            proof { lemma_first_hit(chunks@, ray@, 0); }
            assert(first_hit_from(chunks@, ray@, 0) == Some(k as int));
            assert(hit(chunks@, ray@[k as int]));
            let j = if k > 0 { k - 1 } else { k };
            assert(j as int == place_index(k as int));
            assert(clear_before(chunks@, ray@, j as int));
            assert(cell_in_range(chunks@, ray@[j as int], 32));
            let p = ray[j];
            let (_c, _i, found) = locate_cell(chunks, 32, p);
            if found.is_none() {
                return None;
            }
            let name = &inventory.hotbar_slots[slot_selected as usize].0;
            let id: usize = match world_data.block_index.get(name.as_str()) {
                Some(v) => *v,
                None => 0,
            };
            edit_block(world_data, chunks, p, id as i8)
        },
    }
}

} // verus!
