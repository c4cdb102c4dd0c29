use vstd::prelude::*;
use crate::grid::{block_at, block_at_exec, cell, lookup_in_range, neighbours_sized, lemma_lookup_in_range, cell_in_range, inside3, locate, locate_exec, step_fits, volume, cell_index, locate_cell, lemma_cell_bounds};
use crate::chunk::block_at_cell;
use crate::position_map::{Position, PositionMap};
use crate::world::{BlockDefinition, WorldData};
use crate::common::Element;
use crate::mesh::{face_corner, face_normal, uv_corner, tile_column, tile_row, Shade, face_corner_exec, face_normal_exec, uv_corner_exec, tile_position};
use crate::chunk::{neighbour_offset, neighbour_offset_exec, face_occlusion, face_occlusion_exec};

verus! {

/// The edge length, in cells, of the lit chunks this module works on.
pub const CHUNK_SIDE: i64 = 32;

/// The full light level.
pub const FULL_LIGHT: i8 = 127;

/// How much light each transparent block takes from the light that passes
/// down through it.
pub const LIGHT_STEP: i8 = 10;

/// Stores `block_type` at (x, y, z) of `chunk`; coordinates outside the
/// chunk leave it unchanged.
pub fn set_block(chunk: Vec<i8>, x: i8, y: i8, z: i8, block_type: i8) -> (r: Vec<i8>)
    requires
        inside3(32, x as int, y as int, z as int) ==> cell(32, x as int, y as int, z as int) < chunk@.len(),
    ensures
        r@ == if inside3(32, x as int, y as int, z as int) {
            chunk@.update(cell(32, x as int, y as int, z as int), block_type)
        } else {
            chunk@
        },
{
    if x > 31 || y > 31 || z > 31 {
        return chunk;
    }
    if x < 0 || y < 0 || z < 0 {
        return chunk;
    }
    let mut new_chunk = chunk;
    let i = cell_index(32, x as i64, y as i64, z as i64);
    new_chunk.set(i, block_type);
    new_chunk
}

/// The block id at (x, y, z) relative to the chunk at (cx, cy, cz) whose
/// blocks are `chunk`: inside the chunk its own cell; just across one of its
/// faces the facing cell of the neighbouring chunk in `chunks`, where that
/// chunk is loaded; -1 anywhere else.
pub fn get_block(chunk: &Vec<i8>, x: i64, y: i64, z: i64, chunks: &PositionMap<Vec<i8>>, chunk_position_x: i64, chunk_position_y: i64, chunk_position_z: i64) -> (b: i8)
    requires
        chunks.wf(),
        lookup_in_range(32, chunk@, chunks@, x as int, y as int, z as int, (chunk_position_x, chunk_position_y, chunk_position_z)),
        step_fits(32, x as int, y as int, z as int, (chunk_position_x, chunk_position_y, chunk_position_z)),
    ensures
        b == block_at(32, chunk@, chunks@, x as int, y as int, z as int, (chunk_position_x, chunk_position_y, chunk_position_z)),
{
    block_at_exec(32, chunk, chunks, x, y, z, chunk_position_x, chunk_position_y, chunk_position_z)
}

/// The block the lookup of (x, y, z) finds is air or a registered block.
pub open spec fn located_id_valid(chunk: Seq<i8>, chunks: Map<Position, Vec<i8>>, blocks: Seq<BlockDefinition>, x: int, y: int, z: int, c: Position) -> bool {
    locate(32, chunk, chunks, x, y, z, c) is Some ==> {
        let b = block_at(32, chunk, chunks, x, y, z, c);
        0 <= b <= blocks.len()
    }
}

/// Whether the cell that a lookup of (x, y, z) finds lets the faces next to
/// it show: air does, a block does when its definition renders the sides of
/// its neighbours; a cell in no loaded chunk does not.
pub open spec fn transparent_at(chunk: Seq<i8>, chunks: Map<Position, Vec<i8>>, blocks: Seq<BlockDefinition>, x: int, y: int, z: int, c: Position) -> bool {
    let b = block_at(32, chunk, chunks, x, y, z, c);
    if locate(32, chunk, chunks, x, y, z, c) is None {
        false
    } else if b == 0 {
        true
    } else {
        blocks[b - 1].render_sides
    }
}

/// Whether the cell at (x, y, z) relative to the chunk at (cx, cy, cz) shows
/// the faces next to it, as `transparent_at` describes.
pub fn get_block_transparent(chunk: &Vec<i8>, x: i64, y: i64, z: i64, chunks: &PositionMap<Vec<i8>>, world_data: &WorldData, chunk_position_x: i64, chunk_position_y: i64, chunk_position_z: i64) -> (t: bool)
    requires
        chunks.wf(),
        lookup_in_range(32, chunk@, chunks@, x as int, y as int, z as int, (chunk_position_x, chunk_position_y, chunk_position_z)),
        step_fits(32, x as int, y as int, z as int, (chunk_position_x, chunk_position_y, chunk_position_z)),
        located_id_valid(chunk@, chunks@, world_data.blocks@, x as int, y as int, z as int, (chunk_position_x, chunk_position_y, chunk_position_z)),
    ensures
        t == transparent_at(chunk@, chunks@, world_data.blocks@, x as int, y as int, z as int, (chunk_position_x, chunk_position_y, chunk_position_z)),
{
    let found = match locate_exec(32, chunk, chunks, x, y, z, chunk_position_x, chunk_position_y, chunk_position_z) {
        Some((None, i)) => chunk[i],
        Some((Some(v), i)) => v[i],
        None => return false,
    };
    if found == 0 {
        return true;
    }
    world_data.blocks[(found - 1) as usize].render_sides
}

/// A light map in which every cell is fully lit.
pub fn _generate_light(_chunk: &Vec<i8>) -> (light: Vec<i8>)
    ensures
        light@ == Seq::new(volume(32) as nat, |i: int| FULL_LIGHT),
{
    let mut light: Vec<i8> = Vec::new();
    let mut i: usize = 0;
    while i < 32768
        invariant
            i <= 32768,
            light@ == Seq::new(i as nat, |j: int| FULL_LIGHT),
        decreases 32768 - i,
    {
        light.push(FULL_LIGHT);
        i = i + 1;
        assert(light@ =~= Seq::new(i as nat, |j: int| FULL_LIGHT));
    }
    light
}

/// Whether the cell holds a transparent block.
pub open spec fn transparent_block(b: i8, blocks: Seq<BlockDefinition>) -> bool {
    b > 0 && blocks[b - 1].transparent
}

/// The number of transparent blocks in column (x, z) at heights `from` to 31.
pub open spec fn transparent_above(chunk: Seq<i8>, blocks: Seq<BlockDefinition>, x: int, z: int, from: int) -> int
    decreases 32 - from,
{
    if from >= 32 || from < 0 {
        0
    } else {
        (if transparent_block(chunk[cell(32, x, from, z)], blocks) { 1int } else { 0int })
            + transparent_above(chunk, blocks, x, z, from + 1)
    }
}

/// The light that reaches height `y` of column (x, z): full light, less one
/// step for every transparent block at that height or above, down to the last
/// level from which a whole step can still be taken. Opaque blocks take
/// nothing.
pub open spec fn column_light(chunk: Seq<i8>, blocks: Seq<BlockDefinition>, x: int, z: int, y: int) -> int {
    let k = transparent_above(chunk, blocks, x, z, y);
    127 - 10 * (if k < 12 { k } else { 12 })
}

proof fn lemma_transparent_above_monotone(chunk: Seq<i8>, blocks: Seq<BlockDefinition>, x: int, z: int, y1: int, y2: int)
    requires
        0 <= y1 <= y2,
    ensures
        0 <= transparent_above(chunk, blocks, x, z, y2) <= transparent_above(chunk, blocks, x, z, y1),
    decreases y2 - y1 + 32 - y1,
{
    if y1 < 32 && y1 < y2 {
        lemma_transparent_above_monotone(chunk, blocks, x, z, y1 + 1, y2);
    } else if y1 < 32 {
        lemma_transparent_above_nonnegative(chunk, blocks, x, z, y1);
    }
}

proof fn lemma_transparent_above_nonnegative(chunk: Seq<i8>, blocks: Seq<BlockDefinition>, x: int, z: int, y: int)
    ensures
        0 <= transparent_above(chunk, blocks, x, z, y),
    decreases 32 - y,
{
    if 0 <= y < 32 {
        lemma_transparent_above_nonnegative(chunk, blocks, x, z, y + 1);
    }
}

/// Light only dims on its way down a column, and stays between the dimmest
/// level (7) and full light (127).
pub proof fn lemma_light_falls_and_dims(chunk: Seq<i8>, blocks: Seq<BlockDefinition>, x: int, z: int, y1: int, y2: int)
    requires
        0 <= y1 <= y2 < 32,
    ensures
        7 <= column_light(chunk, blocks, x, z, y1) <= column_light(chunk, blocks, x, z, y2) <= FULL_LIGHT,
{
    lemma_transparent_above_monotone(chunk, blocks, x, z, y1, y2);
}

proof fn lemma_count_own_column(c1: Seq<i8>, c2: Seq<i8>, blocks: Seq<BlockDefinition>, x: int, z: int, from: int)
    requires
        forall|y: int| 0 <= y < 32 ==> c1[#[trigger] cell(32, x, y, z)] == c2[cell(32, x, y, z)],
    ensures
        transparent_above(c1, blocks, x, z, from) == transparent_above(c2, blocks, x, z, from),
    decreases 32 - from,
{
    if 0 <= from < 32 {
        lemma_count_own_column(c1, c2, blocks, x, z, from + 1);
    }
}

/// The light of a cell depends on its own column alone: two chunks whose
/// column (x, z) holds the same blocks at every height give every cell of
/// that column the same light, whatever the other columns hold.
pub proof fn lemma_light_reads_own_column(c1: Seq<i8>, c2: Seq<i8>, blocks: Seq<BlockDefinition>, x: int, z: int, y: int)
    requires
        forall|y2: int| 0 <= y2 < 32 ==> c1[#[trigger] cell(32, x, y2, z)] == c2[cell(32, x, y2, z)],
    ensures
        column_light(c1, blocks, x, z, y) == column_light(c2, blocks, x, z, y),
{
    lemma_count_own_column(c1, c2, blocks, x, z, y);
}

/// Light falls down each column from full light above the top: at height
/// `y` it is the light at `y + 1`, less one step where the block at
/// (x, y, z) itself is transparent and the light above is still more than
/// the last level; air and opaque blocks take nothing.
pub proof fn lemma_light_step(chunk: Seq<i8>, blocks: Seq<BlockDefinition>, x: int, z: int, y: int)
    requires
        0 <= y < 32,
    ensures
        column_light(chunk, blocks, x, z, 32) == FULL_LIGHT,
        column_light(chunk, blocks, x, z, y) == column_light(chunk, blocks, x, z, y + 1)
            - if transparent_block(chunk[cell(32, x, y, z)], blocks) && column_light(chunk, blocks, x, z, y + 1) > 7 {
                LIGHT_STEP as int
            } else {
                0int
            },
{
    lemma_transparent_above_nonnegative(chunk, blocks, x, z, y + 1);
}

/// Every block id in the chunk is air, negative, or a registered block.
pub open spec fn ids_registered(chunk: Seq<i8>, blocks: Seq<BlockDefinition>) -> bool {
    forall|i: int| 0 <= i < volume(32) && #[trigger] chunk[i] > 0 ==> chunk[i] <= blocks.len()
}

proof fn lemma_transparent_above_step(chunk: Seq<i8>, blocks: Seq<BlockDefinition>, x: int, z: int, y: int)
    requires
        0 <= y < 32,
    ensures
        transparent_above(chunk, blocks, x, z, y) == transparent_above(chunk, blocks, x, z, y + 1)
            + (if transparent_block(chunk[cell(32, x, y, z)], blocks) { 1int } else { 0int }),
{
}

/// The light map of a chunk: light falls straight down each column and loses
/// one step at each transparent block, as `column_light` describes.
pub fn light_columns(chunk: &Vec<i8>, world_data: &WorldData) -> (light: Vec<i8>)
    requires
        chunk@.len() >= volume(32),
        ids_registered(chunk@, world_data.blocks@),
    ensures
        light@.len() == volume(32),
        forall|x: int, y: int, z: int| inside3(32, x, y, z) ==>
            #[trigger] light@[cell(32, x, y, z)] == column_light(chunk@, world_data.blocks@, x, z, y),
{
    let mut light = _generate_light(chunk);
    let mut x: usize = 0;
    while x < 32
        invariant
            x <= 32,
            chunk@.len() >= volume(32),
            ids_registered(chunk@, world_data.blocks@),
            light@.len() == volume(32),
            forall|a: int, y: int, z: int| 0 <= a < x && 0 <= y < 32 && 0 <= z < 32 ==>
                #[trigger] light@[cell(32, a, y, z)] == column_light(chunk@, world_data.blocks@, a, z, y),
        decreases 32 - x,
    {
        let mut z: usize = 0;
        while z < 32
            invariant
                x < 32,
                z <= 32,
                chunk@.len() >= volume(32),
                ids_registered(chunk@, world_data.blocks@),
                light@.len() == volume(32),
                forall|a: int, y: int, c: int| 0 <= a < x && 0 <= y < 32 && 0 <= c < 32 ==>
                    #[trigger] light@[cell(32, a, y, c)] == column_light(chunk@, world_data.blocks@, a, c, y),
                forall|y: int, c: int| 0 <= y < 32 && 0 <= c < z ==>
                    #[trigger] light@[cell(32, x as int, y, c)] == column_light(chunk@, world_data.blocks@, x as int, c, y),
            decreases 32 - z,
        {
            let mut light_level: i8 = 127;
            let mut k: usize = 0;
            let ghost mut passed: int = 0;
            while k < 32
                invariant
                    x < 32,
                    z < 32,
                    k <= 32,
                    chunk@.len() >= volume(32),
                    ids_registered(chunk@, world_data.blocks@),
                    light@.len() == volume(32),
                    passed == transparent_above(chunk@, world_data.blocks@, x as int, z as int, 32 - k),
                    light_level == 127 - 10 * (if passed < 12 { passed } else { 12 }),
                    forall|a: int, y: int, c: int| 0 <= a < x && 0 <= y < 32 && 0 <= c < 32 ==>
                        #[trigger] light@[cell(32, a, y, c)] == column_light(chunk@, world_data.blocks@, a, c, y),
                    forall|y: int, c: int| 0 <= y < 32 && 0 <= c < z ==>
                        #[trigger] light@[cell(32, x as int, y, c)] == column_light(chunk@, world_data.blocks@, x as int, c, y),
                    forall|y: int| 32 - k <= y < 32 ==>
                        #[trigger] light@[cell(32, x as int, y, z as int)] == column_light(chunk@, world_data.blocks@, x as int, z as int, y),
                decreases 32 - k,
            {
                let actual_y: usize = 31 - k;
                let idx = cell_index(32, x as i64, actual_y as i64, z as i64);
                let b = chunk[idx];
                proof {
                    lemma_transparent_above_step(chunk@, world_data.blocks@, x as int, z as int, actual_y as int);
                }
                if b > 0 {
                    assert(chunk@[idx as int] > 0);
                    let is_transparent = world_data.blocks[(b - 1) as usize].transparent;
                    if is_transparent && light_level >= 127 / 12 {
                        light_level = light_level - 127 / 12;
                    }
                }
                proof {
                    passed = transparent_above(chunk@, world_data.blocks@, x as int, z as int, actual_y as int);
                }
                light.set(idx, light_level);
                proof {
                    assert forall|a: int, y: int, c: int| 0 <= a < 32 && 0 <= y < 32 && 0 <= c < 32
                        && cell(32, a, y, c) == idx implies a == x && y == actual_y && c == z by {
                        assert(a * 32 * 32 + y * 32 + c == x * 32 * 32 + actual_y * 32 + z ==> a == x && y == actual_y && c == z) by (nonlinear_arith)
                            requires 0 <= a < 32, 0 <= y < 32, 0 <= c < 32, 0 <= x < 32, 0 <= actual_y < 32, 0 <= z < 32;
                    }
                }
                k = k + 1;
            }
            z = z + 1;
        }
        x = x + 1;
    }
    light
}

/// One vertex of a lit chunk mesh, kept symbolic where the position depends
/// on a shape's corner numbers: the cell of the block, the element of its
/// shape, and for each axis whether the corner lies at the element's upper
/// (+1) or lower (-1) bound. The renderer places it at
/// `bound / 8 - 1 + 2 * cell + 64 * chunk` on each axis.
pub struct LitVertex {
    pub cell: (i8, i8, i8),
    pub element: usize,
    pub corner: (i8, i8, i8),
    pub normal: (i8, i8, i8),
    pub shade: Shade,
    pub light: i8,
    pub uv: (i8, i8),
}

/// The coordinates of the `i`-th cell visited: x-major, then z, then y.
pub open spec fn visit_coords(i: int) -> (int, int, int) {
    (i / 1024, i % 32, (i / 32) % 32)
}

/// The covered-flags of cell (x, y, z): a face neighbour covers unless it
/// lets faces show; an edge neighbour covers when it is a block.
pub open spec fn lit_covered(chunk: Seq<i8>, chunks: Map<Position, Vec<i8>>, blocks: Seq<BlockDefinition>, x: int, y: int, z: int, c: Position, k: int) -> bool {
    let o = neighbour_offset(k);
    if k < 6 {
        !transparent_at(chunk, chunks, blocks, x + o.0, y + o.1, z + o.2, c)
    } else {
        block_at(32, chunk, chunks, x + o.0, y + o.1, z + o.2, c) > 0
    }
}

pub open spec fn lit_directions(chunk: Seq<i8>, chunks: Map<Position, Vec<i8>>, blocks: Seq<BlockDefinition>, x: int, y: int, z: int, c: Position) -> Seq<bool> {
    Seq::new(18, |k: int| lit_covered(chunk, chunks, blocks, x, y, z, c, k))
}

/// A transparent element shows face `f` only when it has extent along both
/// axes of that face.
pub open spec fn spans_face(e: Element, f: int) -> bool {
    let a = f / 2;
    &&& (a == 0 || e.from@[0] != e.to@[0])
    &&& (a == 1 || e.from@[1] != e.to@[1])
    &&& (a == 2 || e.from@[2] != e.to@[2])
}

/// The shape elements of block id `b`.
pub open spec fn block_elements(world: WorldData, b: i8) -> Seq<Element> {
    world.shapes@[world.shape_index@[world.blocks@[b - 1].shape@] - 1].1@
}

/// Vertex `v` of face `f` of element `j` of the block in cell (x, y, z).
pub open spec fn lit_vertex(x: int, y: int, z: int, j: int, f: int, v: int, tile: i8, occluded: bool, light: i8) -> LitVertex {
    let k = face_corner(f, v);
    let u = uv_corner(v);
    LitVertex {
        cell: (x as i8, y as i8, z as i8),
        element: j as usize,
        corner: (k.0 as i8, k.1 as i8, k.2 as i8),
        normal: face_normal(f),
        shade: if occluded { Shade::Occluded } else { Shade::Lit },
        light,
        uv: ((u.0 + tile_column(tile as int)) as i8, (u.1 + tile_row(tile as int)) as i8),
    }
}

/// Whether face `f` of element `j` of cell `i` goes into the transparent
/// list (`to_transparent`) or the opaque one.
pub open spec fn face_shown(chunk: Seq<i8>, chunks: Map<Position, Vec<i8>>, world: WorldData, c: Position, i: int, j: int, f: int, to_transparent: bool) -> bool {
    let (x, y, z) = visit_coords(i);
    let b = chunk[cell(32, x, y, z)];
    let d = lit_directions(chunk, chunks, world.blocks@, x, y, z, c);
    let transparent = world.blocks@[b - 1].transparent;
    &&& !d[f]
    &&& transparent == to_transparent
    &&& (transparent ==> spans_face(block_elements(world, b)[j], f))
}

/// Whether face `f` of element `j` of cell `i` goes into either list.
pub open spec fn face_drawn(chunk: Seq<i8>, chunks: Map<Position, Vec<i8>>, world: WorldData, c: Position, i: int, j: int, f: int) -> bool {
    face_shown(chunk, chunks, world, c, i, j, f, true) || face_shown(chunk, chunks, world, c, i, j, f, false)
}

/// The vertices of face `f` of element `j` of cell `i` for one of the lists.
pub open spec fn lit_face_part(chunk: Seq<i8>, light: Seq<i8>, chunks: Map<Position, Vec<i8>>, world: WorldData, c: Position, i: int, j: int, f: int, to_transparent: bool) -> Seq<LitVertex> {
    let (x, y, z) = visit_coords(i);
    let idx = cell(32, x, y, z);
    let b = chunk[idx];
    let d = lit_directions(chunk, chunks, world.blocks@, x, y, z, c);
    if face_shown(chunk, chunks, world, c, i, j, f, to_transparent) {
        let occ = face_occlusion(f, d);
        Seq::new(6, |v: int| lit_vertex(x, y, z, j, f, v, world.blocks@[b - 1].sides@[f], occ[v], light[idx]))
    } else {
        Seq::empty()
    }
}

pub open spec fn lit_element_faces(chunk: Seq<i8>, light: Seq<i8>, chunks: Map<Position, Vec<i8>>, world: WorldData, c: Position, i: int, j: int, n: int, to_transparent: bool) -> Seq<LitVertex>
    decreases n,
{
    if n <= 0 {
        Seq::empty()
    } else {
        lit_element_faces(chunk, light, chunks, world, c, i, j, n - 1, to_transparent)
            + lit_face_part(chunk, light, chunks, world, c, i, j, n - 1, to_transparent)
    }
}

pub open spec fn lit_cell_elements(chunk: Seq<i8>, light: Seq<i8>, chunks: Map<Position, Vec<i8>>, world: WorldData, c: Position, i: int, n: int, to_transparent: bool) -> Seq<LitVertex>
    decreases n,
{
    if n <= 0 {
        Seq::empty()
    } else {
        lit_cell_elements(chunk, light, chunks, world, c, i, n - 1, to_transparent)
            + lit_element_faces(chunk, light, chunks, world, c, i, n - 1, 6, to_transparent)
    }
}

/// The vertices that cell `i` adds to one of the lists: nothing for air,
/// else the shown faces of each element of its shape in turn.
pub open spec fn lit_cell_mesh(chunk: Seq<i8>, light: Seq<i8>, chunks: Map<Position, Vec<i8>>, world: WorldData, c: Position, i: int, to_transparent: bool) -> Seq<LitVertex> {
    let (x, y, z) = visit_coords(i);
    let b = chunk[cell(32, x, y, z)];
    if b == 0 {
        Seq::empty()
    } else {
        lit_cell_elements(chunk, light, chunks, world, c, i, block_elements(world, b).len() as int, to_transparent)
    }
}

/// The vertices that the first `n` visited cells add to one of the lists.
pub open spec fn lit_chunk_mesh(chunk: Seq<i8>, light: Seq<i8>, chunks: Map<Position, Vec<i8>>, world: WorldData, c: Position, n: int, to_transparent: bool) -> Seq<LitVertex>
    decreases n,
{
    if n <= 0 {
        Seq::empty()
    } else {
        lit_chunk_mesh(chunk, light, chunks, world, c, n - 1, to_transparent)
            + lit_cell_mesh(chunk, light, chunks, world, c, n - 1, to_transparent)
    }
}

proof fn lemma_element_faces_other_list(chunk: Seq<i8>, light: Seq<i8>, chunks: Map<Position, Vec<i8>>, world: WorldData, c: Position, i: int, j: int, n: int, to_transparent: bool)
    requires
        world.blocks@[chunk[cell(32, visit_coords(i).0, visit_coords(i).1, visit_coords(i).2)] - 1].transparent != to_transparent,
    ensures
        lit_element_faces(chunk, light, chunks, world, c, i, j, n, to_transparent).len() == 0,
    decreases n,
{
    if n > 0 {
        lemma_element_faces_other_list(chunk, light, chunks, world, c, i, j, n - 1, to_transparent);
        assert(!face_shown(chunk, chunks, world, c, i, j, n - 1, to_transparent));
    }
}

proof fn lemma_cell_elements_other_list(chunk: Seq<i8>, light: Seq<i8>, chunks: Map<Position, Vec<i8>>, world: WorldData, c: Position, i: int, n: int, to_transparent: bool)
    requires
        world.blocks@[chunk[cell(32, visit_coords(i).0, visit_coords(i).1, visit_coords(i).2)] - 1].transparent != to_transparent,
    ensures
        lit_cell_elements(chunk, light, chunks, world, c, i, n, to_transparent).len() == 0,
    decreases n,
{
    if n > 0 {
        lemma_cell_elements_other_list(chunk, light, chunks, world, c, i, n - 1, to_transparent);
        lemma_element_faces_other_list(chunk, light, chunks, world, c, i, n - 1, 6, to_transparent);
    }
}

/// The two lists of a cell are split by the block's transparent flag, not
/// by any other: a block whose definition is transparent adds nothing to
/// the first (opaque) list, and one that is not adds nothing to the second,
/// whatever its render-sides flag.
pub proof fn lemma_cell_list_by_transparency(chunk: Seq<i8>, light: Seq<i8>, chunks: Map<Position, Vec<i8>>, world: WorldData, c: Position, i: int)
    ensures
        ({
            let (x, y, z) = visit_coords(i);
            let b = chunk[cell(32, x, y, z)];
            &&& (b != 0 && world.blocks@[b - 1].transparent) ==> lit_cell_mesh(chunk, light, chunks, world, c, i, false).len() == 0
            &&& (b != 0 && !world.blocks@[b - 1].transparent) ==> lit_cell_mesh(chunk, light, chunks, world, c, i, true).len() == 0
        }),
{
    let (x, y, z) = visit_coords(i);
    let b = chunk[cell(32, x, y, z)];
    if b != 0 {
        let n = block_elements(world, b).len() as int;
        if world.blocks@[b - 1].transparent {
            lemma_cell_elements_other_list(chunk, light, chunks, world, c, i, n, false);
        } else {
            lemma_cell_elements_other_list(chunk, light, chunks, world, c, i, n, true);
        }
    }
}

/// A chunk whose blocks are all transparent has an empty opaque list, and
/// one with no transparent block has an empty transparent list.
pub proof fn lemma_chunk_lists_by_transparency(chunk: Seq<i8>, light: Seq<i8>, chunks: Map<Position, Vec<i8>>, world: WorldData, c: Position, n: int)
    ensures
        (forall|i: int| 0 <= i < n ==> #[trigger] chunk[cell(32, visit_coords(i).0, visit_coords(i).1, visit_coords(i).2)] == 0
            || world.blocks@[chunk[cell(32, visit_coords(i).0, visit_coords(i).1, visit_coords(i).2)] - 1].transparent)
            ==> lit_chunk_mesh(chunk, light, chunks, world, c, n, false).len() == 0,
        (forall|i: int| 0 <= i < n ==> #[trigger] chunk[cell(32, visit_coords(i).0, visit_coords(i).1, visit_coords(i).2)] == 0
            || !world.blocks@[chunk[cell(32, visit_coords(i).0, visit_coords(i).1, visit_coords(i).2)] - 1].transparent)
            ==> lit_chunk_mesh(chunk, light, chunks, world, c, n, true).len() == 0,
    decreases n,
{
    if n > 0 {
        lemma_chunk_lists_by_transparency(chunk, light, chunks, world, c, n - 1);
        lemma_cell_list_by_transparency(chunk, light, chunks, world, c, n - 1);
    }
}

proof fn lemma_lit_element_faces_whole(chunk: Seq<i8>, light: Seq<i8>, chunks: Map<Position, Vec<i8>>, world: WorldData, c: Position, i: int, j: int, n: int, to_transparent: bool)
    ensures
        lit_element_faces(chunk, light, chunks, world, c, i, j, n, to_transparent).len() % 6 == 0,
    decreases n,
{
    if n > 0 {
        lemma_lit_element_faces_whole(chunk, light, chunks, world, c, i, j, n - 1, to_transparent);
    }
}

proof fn lemma_lit_cell_elements_whole(chunk: Seq<i8>, light: Seq<i8>, chunks: Map<Position, Vec<i8>>, world: WorldData, c: Position, i: int, n: int, to_transparent: bool)
    ensures
        lit_cell_elements(chunk, light, chunks, world, c, i, n, to_transparent).len() % 6 == 0,
    decreases n,
{
    if n > 0 {
        lemma_lit_cell_elements_whole(chunk, light, chunks, world, c, i, n - 1, to_transparent);
        lemma_lit_element_faces_whole(chunk, light, chunks, world, c, i, n - 1, 6, to_transparent);
    }
}

/// Both vertex lists of a lit chunk mesh are made of whole faces: six
/// vertices (two triangles) each.
pub proof fn lemma_lit_mesh_whole_faces(chunk: Seq<i8>, light: Seq<i8>, chunks: Map<Position, Vec<i8>>, world: WorldData, c: Position, n: int, to_transparent: bool)
    ensures
        lit_chunk_mesh(chunk, light, chunks, world, c, n, to_transparent).len() % 6 == 0,
    decreases n,
{
    if n > 0 {
        lemma_lit_mesh_whole_faces(chunk, light, chunks, world, c, n - 1, to_transparent);
        let (x, y, z) = visit_coords(n - 1);
        let b = chunk[cell(32, x, y, z)];
        lemma_lit_cell_elements_whole(chunk, light, chunks, world, c, n - 1, block_elements(world, b).len() as int, to_transparent);
    }
}

/// A chunk of nothing but air has empty vertex lists.
pub proof fn lemma_lit_air_has_no_mesh(chunk: Seq<i8>, light: Seq<i8>, chunks: Map<Position, Vec<i8>>, world: WorldData, c: Position, n: int, to_transparent: bool)
    requires
        forall|i: int| 0 <= i < volume(32) ==> #[trigger] chunk[i] == 0,
        n <= volume(32),
    ensures
        lit_chunk_mesh(chunk, light, chunks, world, c, n, to_transparent) == Seq::<LitVertex>::empty(),
    decreases n,
{
    if n > 0 {
        lemma_lit_air_has_no_mesh(chunk, light, chunks, world, c, n - 1, to_transparent);
        lemma_visit_coords(n - 1);
        let (x, y, z) = visit_coords(n - 1);
        lemma_cell_bounds(32, x, y, z);
        assert(chunk[cell(32, x, y, z)] == 0);
        assert(lit_chunk_mesh(chunk, light, chunks, world, c, n, to_transparent) =~= Seq::<LitVertex>::empty());
    }
}

/// The chunk can be rendered: every block is registered with a registered
/// shape; where it has elements, its face neighbours are air or registered;
/// every face it shows has a texture.
pub open spec fn lit_renderable(chunk: Seq<i8>, chunks: Map<Position, Vec<i8>>, world: WorldData, c: Position) -> bool {
    &&& forall|i: int| 0 <= i < volume(32) && #[trigger] chunk[i] != 0 ==> {
        let b = chunk[i];
        &&& 1 <= b <= world.blocks@.len()
        &&& world.shape_index@.contains_key(world.blocks@[b - 1].shape@)
        &&& 1 <= world.shape_index@[world.blocks@[b - 1].shape@] <= world.shapes@.len()
    }
    &&& forall|i: int, k: int| 0 <= i < volume(32) && 0 <= k < 6 && chunk[cell(32, visit_coords(i).0, visit_coords(i).1, visit_coords(i).2)] != 0
        && block_elements(world, chunk[cell(32, visit_coords(i).0, visit_coords(i).1, visit_coords(i).2)]).len() > 0
        ==> #[trigger] located_id_valid(chunk, chunks, world.blocks@, visit_coords(i).0 + neighbour_offset(k).0,
            visit_coords(i).1 + neighbour_offset(k).1, visit_coords(i).2 + neighbour_offset(k).2, c)
    &&& forall|i: int, j: int, f: int| 0 <= i < volume(32) && 0 <= f < 6 && 0 <= j
        && j < block_elements(world, chunk[cell(32, visit_coords(i).0, visit_coords(i).1, visit_coords(i).2)]).len()
        && chunk[cell(32, visit_coords(i).0, visit_coords(i).1, visit_coords(i).2)] != 0
        && #[trigger] face_drawn(chunk, chunks, world, c, i, j, f)
        ==> f < world.blocks@[chunk[cell(32, visit_coords(i).0, visit_coords(i).1, visit_coords(i).2)] - 1].sides@.len()
}

proof fn lemma_visit_coords(i: int)
    requires
        0 <= i < 32768,
    ensures
        inside3(32, visit_coords(i).0, visit_coords(i).1, visit_coords(i).2),
{
}

/// The covered-flags of cell (x, y, z), in the order `neighbour_offset` gives.
fn lit_directions_exec(chunk: &Vec<i8>, chunks: &PositionMap<Vec<i8>>, world_data: &WorldData, x: i64, y: i64, z: i64, cx: i64, cy: i64, cz: i64) -> (d: Vec<bool>)
    requires
        chunks.wf(),
        chunk@.len() >= volume(32),
        neighbours_sized(chunks@, (cx, cy, cz), 32),
        crate::chunk::position_interior((cx, cy, cz)),
        0 <= x < 32,
        0 <= y < 32,
        0 <= z < 32,
        forall|k: int| 0 <= k < 6 ==> #[trigger] located_id_valid(chunk@, chunks@, world_data.blocks@,
            x + neighbour_offset(k).0, y + neighbour_offset(k).1, z + neighbour_offset(k).2, (cx, cy, cz)),
    ensures
        d@ == lit_directions(chunk@, chunks@, world_data.blocks@, x as int, y as int, z as int, (cx, cy, cz)),
{
    let mut d: Vec<bool> = Vec::new();
    let mut k: usize = 0;
    while k < 18
        invariant
            chunks.wf(),
            chunk@.len() >= volume(32),
            neighbours_sized(chunks@, (cx, cy, cz), 32),
            crate::chunk::position_interior((cx, cy, cz)),
            0 <= x < 32,
            0 <= y < 32,
            0 <= z < 32,
            forall|k: int| 0 <= k < 6 ==> #[trigger] located_id_valid(chunk@, chunks@, world_data.blocks@,
                x + neighbour_offset(k).0, y + neighbour_offset(k).1, z + neighbour_offset(k).2, (cx, cy, cz)),
            k <= 18,
            d@ == lit_directions(chunk@, chunks@, world_data.blocks@, x as int, y as int, z as int, (cx, cy, cz)).take(k as int),
        decreases 18 - k,
    {
        let o = neighbour_offset_exec(k);
        proof { lemma_lookup_in_range(32, chunk@, chunks@, (x + o.0) as int, (y + o.1) as int, (z + o.2) as int, (cx, cy, cz)); }
        let covered_k = if k < 6 {
            assert(located_id_valid(chunk@, chunks@, world_data.blocks@,
                x + neighbour_offset(k as int).0, y + neighbour_offset(k as int).1, z + neighbour_offset(k as int).2, (cx, cy, cz)));
            !get_block_transparent(chunk, x + o.0, y + o.1, z + o.2, chunks, world_data, cx, cy, cz)
        } else {
            get_block(chunk, x + o.0, y + o.1, z + o.2, chunks, cx, cy, cz) > 0
        };
        proof {
            let ds = lit_directions(chunk@, chunks@, world_data.blocks@, x as int, y as int, z as int, (cx, cy, cz));
            assert(ds[k as int] == covered_k);
            assert(ds.take(k as int + 1) =~= ds.take(k as int).push(covered_k));
        }
        d.push(covered_k);
        k = k + 1;
    }
    proof {
        let ds = lit_directions(chunk@, chunks@, world_data.blocks@, x as int, y as int, z as int, (cx, cy, cz));
        assert(ds.take(18) =~= ds);
    }
    d
}

fn spans_face_exec(e: &Element, f: usize) -> (r: bool)
    requires
        f < 6,
    ensures
        r == spans_face(*e, f as int),
{
    let a = f / 2;
    (a == 0 || e.from[0] != e.to[0]) && (a == 1 || e.from[1] != e.to[1]) && (a == 2 || e.from[2] != e.to[2])
}

/// Appends the six vertices of face `f` of element `j` of cell (x, y, z).
fn push_lit_face(list: &mut Vec<LitVertex>, x: i8, y: i8, z: i8, j: usize, f: usize, tile: i8, occluded: &Vec<bool>, light: i8)
    requires
        f < 6,
        occluded@.len() == 6,
    ensures
        final(list)@ == old(list)@ + Seq::new(6, |v: int| lit_vertex(x as int, y as int, z as int, j as int, f as int, v, tile, occluded@[v], light)),
{
    let ghost start = list@;
    let ghost face = Seq::new(6, |v: int| lit_vertex(x as int, y as int, z as int, j as int, f as int, v, tile, occluded@[v], light));
    let (tc, tr) = tile_position(tile);
    let normal = face_normal_exec(f);
    let mut v: usize = 0;
    while v < 6
        invariant
            f < 6,
            v <= 6,
            occluded@.len() == 6,
            tc == tile_column(tile as int),
            tr == tile_row(tile as int),
            -8 < tc < 8,
            -16 <= tr < 16,
            normal == face_normal(f as int),
            face == Seq::new(6, |v: int| lit_vertex(x as int, y as int, z as int, j as int, f as int, v, tile, occluded@[v], light)),
            list@ == start + face.take(v as int),
        decreases 6 - v,
    {
        let k = face_corner_exec(f, v);
        let u = uv_corner_exec(v);
        let shade = if occluded[v] { Shade::Occluded } else { Shade::Lit };
        let vertex = LitVertex {
            cell: (x, y, z),
            element: j,
            corner: k,
            normal,
            shade,
            light,
            uv: (u.0 + tc, u.1 + tr),
        };
        proof {
            assert(vertex == face[v as int]);
            assert(face.take(v as int + 1) =~= face.take(v as int).push(face[v as int]));
        }
        list.push(vertex);
        v = v + 1;
    }
    proof {
        assert(face.take(6) =~= face);
    }
}

/// Appends the vertices of cell `i` to both lists.
#[verifier::rlimit(40)]
fn render_cell(chunk: &Vec<i8>, light_data: &Vec<i8>, chunks: &PositionMap<Vec<i8>>, world_data: &WorldData,
               cx: i64, cy: i64, cz: i64, i: usize, opaque: &mut Vec<LitVertex>, transparent: &mut Vec<LitVertex>)
    requires
        chunks.wf(),
        chunk@.len() >= volume(32),
        light_data@.len() >= volume(32),
        neighbours_sized(chunks@, (cx, cy, cz), 32),
        crate::chunk::position_interior((cx, cy, cz)),
        lit_renderable(chunk@, chunks@, *world_data, (cx, cy, cz)),
        i < 32768,
    ensures
        final(opaque)@ == old(opaque)@ + lit_cell_mesh(chunk@, light_data@, chunks@, *world_data, (cx, cy, cz), i as int, false),
        final(transparent)@ == old(transparent)@ + lit_cell_mesh(chunk@, light_data@, chunks@, *world_data, (cx, cy, cz), i as int, true),
{
    let ghost c: Position = (cx, cy, cz);
    let ghost world = *world_data;
    let x = (i / 1024) as i64;
    let y = (i % 32) as i64;
    let z = ((i / 32) % 32) as i64;
    proof {
        lemma_visit_coords(i as int);
        lemma_lookup_in_range(32, chunk@, chunks@, x as int, y as int, z as int, c);
    }
    let block_id = get_block(chunk, x, y, z, chunks, cx, cy, cz);
    let idx = cell_index(32, x, y, z);
    assert(block_id == chunk@[idx as int]);
    if block_id == 0 {
        proof {
            assert(opaque@ =~= old(opaque)@ + lit_cell_mesh(chunk@, light_data@, chunks@, world, c, i as int, false));
            assert(transparent@ =~= old(transparent)@ + lit_cell_mesh(chunk@, light_data@, chunks@, world, c, i as int, true));
        }
        return;
    }
    assert(chunk@[idx as int] != 0);
    let light_level = light_data[idx];
    let block = &world_data.blocks[(block_id - 1) as usize];
    let shape_id: usize = match world_data.shape_index.get(block.shape.as_str()) {
        Some(s) => *s,
        None => 0,
    };
    let elements = &world_data.shapes[shape_id - 1].1;
    assert(elements@ == block_elements(world, block_id));
    let is_transparent = block.transparent;
    let ghost start_o = opaque@;
    let ghost start_t = transparent@;
    let n = elements.len();
    if n == 0 {
        proof {
            assert(opaque@ =~= start_o + lit_cell_mesh(chunk@, light_data@, chunks@, world, c, i as int, false));
            assert(transparent@ =~= start_t + lit_cell_mesh(chunk@, light_data@, chunks@, world, c, i as int, true));
        }
        return;
    }
    proof {
        assert forall|k: int| 0 <= k < 6 implies #[trigger] located_id_valid(chunk@, chunks@, world_data.blocks@,
            x + neighbour_offset(k).0, y + neighbour_offset(k).1, z + neighbour_offset(k).2, c) by {
            assert(located_id_valid(chunk@, chunks@, world.blocks@, visit_coords(i as int).0 + neighbour_offset(k).0,
                visit_coords(i as int).1 + neighbour_offset(k).1, visit_coords(i as int).2 + neighbour_offset(k).2, c));
        }
    }
    let dirs = lit_directions_exec(chunk, chunks, world_data, x, y, z, cx, cy, cz);
    let mut j: usize = 0;
    while j < n
        invariant
            lit_renderable(chunk@, chunks@, world, c),
            world == *world_data,
            c == (cx, cy, cz),
            i < 32768,
            (x, y, z) == (visit_coords(i as int).0 as i64, visit_coords(i as int).1 as i64, visit_coords(i as int).2 as i64),
            0 <= x < 32,
            0 <= y < 32,
            0 <= z < 32,
            idx == cell(32, x as int, y as int, z as int),
            chunk@.len() >= volume(32),
            block_id == chunk@[idx as int],
            block_id != 0,
            1 <= block_id <= world.blocks@.len(),
            *block == world.blocks@[block_id - 1],
            is_transparent == block.transparent,
            light_level == light_data@[idx as int],
            elements@ == block_elements(world, block_id),
            n == elements@.len(),
            j <= n,
            dirs@ == lit_directions(chunk@, chunks@, world.blocks@, x as int, y as int, z as int, c),
            opaque@ == start_o + lit_cell_elements(chunk@, light_data@, chunks@, world, c, i as int, j as int, false),
            transparent@ == start_t + lit_cell_elements(chunk@, light_data@, chunks@, world, c, i as int, j as int, true),
        decreases n - j,
    {
        let ghost mid_o = opaque@;
        let ghost mid_t = transparent@;
        let mut f: usize = 0;
        while f < 6
            invariant
                lit_renderable(chunk@, chunks@, world, c),
                world == *world_data,
                c == (cx, cy, cz),
                i < 32768,
                (x, y, z) == (visit_coords(i as int).0 as i64, visit_coords(i as int).1 as i64, visit_coords(i as int).2 as i64),
                0 <= x < 32,
                0 <= y < 32,
                0 <= z < 32,
                idx == cell(32, x as int, y as int, z as int),
                chunk@.len() >= volume(32),
                block_id == chunk@[idx as int],
                block_id != 0,
                1 <= block_id <= world.blocks@.len(),
                *block == world.blocks@[block_id - 1],
                is_transparent == block.transparent,
                light_level == light_data@[idx as int],
                elements@ == block_elements(world, block_id),
                n == elements@.len(),
                j < n,
                f <= 6,
                dirs@ == lit_directions(chunk@, chunks@, world.blocks@, x as int, y as int, z as int, c),
                opaque@ == mid_o + lit_element_faces(chunk@, light_data@, chunks@, world, c, i as int, j as int, f as int, false),
                transparent@ == mid_t + lit_element_faces(chunk@, light_data@, chunks@, world, c, i as int, j as int, f as int, true),
            decreases 6 - f,
        {
            let shown = !dirs[f] && (!is_transparent || spans_face_exec(&elements[j], f));
            assert(shown == face_shown(chunk@, chunks@, world, c, i as int, j as int, f as int, is_transparent));
            if shown {
                assert(face_drawn(chunk@, chunks@, world, c, i as int, j as int, f as int));
                let occluded = face_occlusion_exec(f, &dirs);
                let tile = block.sides[f];
                if is_transparent {
                    push_lit_face(transparent, x as i8, y as i8, z as i8, j, f, tile, &occluded, light_level);
                } else {
                    push_lit_face(opaque, x as i8, y as i8, z as i8, j, f, tile, &occluded, light_level);
                }
            }
            proof {
                assert(opaque@ =~= mid_o + lit_element_faces(chunk@, light_data@, chunks@, world, c, i as int, j as int, f as int + 1, false));
                assert(transparent@ =~= mid_t + lit_element_faces(chunk@, light_data@, chunks@, world, c, i as int, j as int, f as int + 1, true));
            }
            f = f + 1;
        }
        proof {
            assert(opaque@ =~= start_o + lit_cell_elements(chunk@, light_data@, chunks@, world, c, i as int, j as int + 1, false));
            assert(transparent@ =~= start_t + lit_cell_elements(chunk@, light_data@, chunks@, world, c, i as int, j as int + 1, true));
        }
        j = j + 1;
    }
}

/// Builds the meshes of the lit chunk at (cx, cy, cz): for every block, in
/// x-major, then z, then y order, and for every element of its shape, each
/// face not covered by a neighbour, textured with the block's tile for that
/// face, darkened at corners next to edge neighbours and carrying the
/// block's light level. Opaque blocks go to the first list, transparent
/// blocks (only faces their elements span) to the second.
pub fn render_chunk(chunk: &Vec<i8>, light_data: &Vec<i8>, chunks: &PositionMap<Vec<i8>>, world_data: &WorldData,
                    chunk_position_x: i64, chunk_position_y: i64, chunk_position_z: i64) -> (r: (Vec<LitVertex>, Vec<LitVertex>))
    requires
        chunks.wf(),
        chunk@.len() >= volume(32),
        light_data@.len() >= volume(32),
        neighbours_sized(chunks@, (chunk_position_x, chunk_position_y, chunk_position_z), 32),
        crate::chunk::position_interior((chunk_position_x, chunk_position_y, chunk_position_z)),
        lit_renderable(chunk@, chunks@, *world_data, (chunk_position_x, chunk_position_y, chunk_position_z)),
    ensures
        r.0@ == lit_chunk_mesh(chunk@, light_data@, chunks@, *world_data, (chunk_position_x, chunk_position_y, chunk_position_z), volume(32), false),
        r.1@ == lit_chunk_mesh(chunk@, light_data@, chunks@, *world_data, (chunk_position_x, chunk_position_y, chunk_position_z), volume(32), true),
{
    let ghost c: Position = (chunk_position_x, chunk_position_y, chunk_position_z);
    let mut opaque: Vec<LitVertex> = Vec::new();
    let mut transparent: Vec<LitVertex> = Vec::new();
    let mut i: usize = 0;
    while i < 32768
        invariant
            chunks.wf(),
            chunk@.len() >= volume(32),
            light_data@.len() >= volume(32),
            neighbours_sized(chunks@, c, 32),
            crate::chunk::position_interior(c),
            c == (chunk_position_x, chunk_position_y, chunk_position_z),
            lit_renderable(chunk@, chunks@, *world_data, c),
            i <= 32768,
            opaque@ == lit_chunk_mesh(chunk@, light_data@, chunks@, *world_data, c, i as int, false),
            transparent@ == lit_chunk_mesh(chunk@, light_data@, chunks@, *world_data, c, i as int, true),
        decreases 32768 - i,
    {
        render_cell(chunk, light_data, chunks, world_data, chunk_position_x, chunk_position_y, chunk_position_z, i, &mut opaque, &mut transparent);
        i = i + 1;
    }
    (opaque, transparent)
}

/// The block id at world cell (x, y, z) for 32-cell chunks: the cell's
/// value in its chunk where that chunk is loaded, else -1. The cell of a
/// world position is its coordinates plus one half, rounded down.
pub fn get_block_global(chunks: &PositionMap<Vec<i8>>, x: i64, y: i64, z: i64) -> (b: i8)
    requires
        chunks.wf(),
        cell_in_range(chunks@, (x, y, z), 32),
    ensures
        b == block_at_cell(chunks@, (x, y, z), 32),
{
    let (_c, i, found) = locate_cell(chunks, 32, (x, y, z));
    match found {
        Some(chunk) => chunk[i],
        None => -1,
    }
}

} // verus!
