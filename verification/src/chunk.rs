use vstd::prelude::*;
use crate::grid::{block_at, block_at_exec, cell, sized_at, lookup_in_range, neighbours_sized, lemma_lookup_in_range, cell_in_range, inside3, step_fits, volume, cell_index, cell_location, locate_cell, local_of, chunk_of, lemma_cell_bounds, lemma_cell_injective};
use crate::mesh::{face_vertices, push_face, Mesh, MeshVertex};
use crate::position_map::{Position, PositionMap};
use crate::world::{BlockDefinition, WorldData};
use crate::world::generation::terrain::{TerrainInput, generated_cell, outside_clearing, world_coord, dirt_name, stone_name, grass_1_name, grass_2_name, oak_log_name};

verus! {

/// The edge length, in cells, of the chunks this module works on.
pub const CHUNK_SIDE: i64 = 16;

/// Stores `block_type` at (x, y, z) of `chunk`; coordinates outside the
/// chunk leave it unchanged.
pub fn set_block(chunk: Vec<i8>, x: i8, y: i8, z: i8, block_type: i8) -> (r: Vec<i8>)
    requires
        inside3(16, x as int, y as int, z as int) ==> cell(16, x as int, y as int, z as int) < chunk@.len(),
    ensures
        r@ == if inside3(16, x as int, y as int, z as int) {
            chunk@.update(cell(16, x as int, y as int, z as int), block_type)
        } else {
            chunk@
        },
{
    if x > 15 || y > 15 || z > 15 {
        return chunk;
    }
    if x < 0 || y < 0 || z < 0 {
        return chunk;
    }
    let mut new_chunk = chunk;
    let i = cell_index(16, x as i64, y as i64, z as i64);
    new_chunk.set(i, block_type);
    new_chunk
}

/// The block id at (x, y, z) relative to the chunk at (cx, cy, cz) whose
/// blocks are `chunk`: inside the chunk its own cell; just across one of its
/// faces the facing cell of the neighbouring chunk in `world_data`, where
/// that chunk is loaded; -1 anywhere else.
pub fn get_block(chunk: &Vec<i8>, x: i64, y: i64, z: i64, world_data: &WorldData, chunk_position_x: i64, chunk_position_y: i64, chunk_position_z: i64) -> (b: i8)
    requires
        world_data.chunks.wf(),
        lookup_in_range(16, chunk@, world_data.chunks@, x as int, y as int, z as int, (chunk_position_x, chunk_position_y, chunk_position_z)),
        step_fits(16, x as int, y as int, z as int, (chunk_position_x, chunk_position_y, chunk_position_z)),
    ensures
        b == block_at(16, chunk@, world_data.chunks@, x as int, y as int, z as int, (chunk_position_x, chunk_position_y, chunk_position_z)),
{
    block_at_exec(16, chunk, &world_data.chunks, x, y, z, chunk_position_x, chunk_position_y, chunk_position_z)
}

/// The offset to the neighbour that direction `k` (0..18) looks at: the six
/// face neighbours (+x, -x, +y, -y, +z, -z), then the twelve edge neighbours
/// right-top, right-bottom, left-top, left-bottom, front-top, front-bottom,
/// back-top, back-bottom, right-front, right-back, left-front, left-back.
pub open spec fn neighbour_offset(k: int) -> (int, int, int) {
    let offsets: Seq<(int, int, int)> = seq![
        (1, 0, 0), (-1, 0, 0), (0, 1, 0), (0, -1, 0), (0, 0, 1), (0, 0, -1),
        (1, 1, 0), (1, -1, 0), (-1, 1, 0), (-1, -1, 0),
        (0, 1, 1), (0, -1, 1), (0, 1, -1), (0, -1, -1),
        (1, 0, 1), (1, 0, -1), (-1, 0, 1), (-1, 0, -1)
    ];
    offsets[k]
}

pub fn neighbour_offset_exec(k: usize) -> (r: (i64, i64, i64))
    requires
        k < 18,
    ensures
        r.0 == neighbour_offset(k as int).0,
        r.1 == neighbour_offset(k as int).1,
        r.2 == neighbour_offset(k as int).2,
{
    let t: [(i64, i64, i64); 18] = [
        (1, 0, 0), (-1, 0, 0), (0, 1, 0), (0, -1, 0), (0, 0, 1), (0, 0, -1),
        (1, 1, 0), (1, -1, 0), (-1, 1, 0), (-1, -1, 0),
        (0, 1, 1), (0, -1, 1), (0, 1, -1), (0, -1, -1),
        (1, 0, 1), (1, 0, -1), (-1, 0, 1), (-1, 0, -1),
    ];
    t[k]
}

/// Whether direction `k` of cell (x, y, z) is covered: for a face neighbour,
/// anything but air (an unloaded neighbour counts as covering); for an edge
/// neighbour, a block.
pub open spec fn covered(chunk: Seq<i8>, chunks: Map<Position, Vec<i8>>, x: int, y: int, z: int, c: Position, k: int) -> bool {
    let o = neighbour_offset(k);
    let b = block_at(16, chunk, chunks, x + o.0, y + o.1, z + o.2, c);
    if k < 6 { b != 0 } else { b > 0 }
}

/// The eighteen covered-flags of cell (x, y, z).
pub open spec fn directions(chunk: Seq<i8>, chunks: Map<Position, Vec<i8>>, x: int, y: int, z: int, c: Position) -> Seq<bool> {
    Seq::new(18, |k: int| covered(chunk, chunks, x, y, z, c, k))
}

/// Which of the six vertices of face `f` are darkened, given the covered
/// flags `d`: a side face darkens its lower edge when the block below across
/// that side is present; the top and bottom faces darken each corner next to
/// a present edge neighbour.
pub open spec fn face_occlusion(f: int, d: Seq<bool>) -> Seq<bool> {
    if f == 0 {
        seq![d[7], d[7], false, false, d[7], false]
    } else if f == 1 {
        seq![d[9], d[9], false, false, d[9], false]
    } else if f == 2 {
        seq![d[8] || d[10], d[6] || d[10], d[8] || d[12], d[8] || d[12], d[6] || d[10], d[6] || d[12]]
    } else if f == 3 {
        seq![d[9] || d[13], d[7] || d[13], d[9] || d[11], d[9] || d[11], d[7] || d[13], d[7] || d[11]]
    } else if f == 4 {
        seq![d[11], d[11], false, false, d[11], false]
    } else {
        seq![d[13], d[13], false, false, d[13], false]
    }
}

/// Whether the cell at offset (dx, dy, dz) from cell (x, y, z) of the
/// 16-cell chunk at `c` holds a block.
pub open spec fn block_beside(chunk: Seq<i8>, chunks: Map<Position, Vec<i8>>, x: int, y: int, z: int, c: Position,
    dx: int, dy: int, dz: int) -> bool {
    block_at(16, chunk, chunks, x + dx, y + dy, z + dz, c) > 0
}

/// A side face darkens exactly its lower edge (vertices 0, 1 and 4), and
/// exactly when the cell diagonally below it across that face holds a
/// block: for +x the cell at offset (1, -1, 0), for -x (-1, -1, 0), for +z
/// (0, -1, 1), for -z (0, -1, -1). Nothing above a side face darkens it.
pub proof fn lemma_side_faces_darken_below(chunk: Seq<i8>, chunks: Map<Position, Vec<i8>>, x: int, y: int, z: int, c: Position)
    ensures
        ({
            let d = directions(chunk, chunks, x, y, z, c);
            let px = block_beside(chunk, chunks, x, y, z, c, 1, -1, 0);
            let nx = block_beside(chunk, chunks, x, y, z, c, -1, -1, 0);
            let pz = block_beside(chunk, chunks, x, y, z, c, 0, -1, 1);
            let nz = block_beside(chunk, chunks, x, y, z, c, 0, -1, -1);
            &&& face_occlusion(0, d) == seq![px, px, false, false, px, false]
            &&& face_occlusion(1, d) == seq![nx, nx, false, false, nx, false]
            &&& face_occlusion(4, d) == seq![pz, pz, false, false, pz, false]
            &&& face_occlusion(5, d) == seq![nz, nz, false, false, nz, false]
        }),
{
    let d = directions(chunk, chunks, x, y, z, c);
    assert(neighbour_offset(7) == (1int, -1int, 0int));
    assert(neighbour_offset(9) == (-1int, -1int, 0int));
    assert(neighbour_offset(11) == (0int, -1int, 1int));
    assert(neighbour_offset(13) == (0int, -1int, -1int));
    assert(d[7] == block_beside(chunk, chunks, x, y, z, c, 1, -1, 0));
    assert(d[9] == block_beside(chunk, chunks, x, y, z, c, -1, -1, 0));
    assert(d[11] == block_beside(chunk, chunks, x, y, z, c, 0, -1, 1));
    assert(d[13] == block_beside(chunk, chunks, x, y, z, c, 0, -1, -1));
}

pub fn face_occlusion_exec(f: usize, d: &Vec<bool>) -> (r: Vec<bool>)
    requires
        f < 6,
        d@.len() == 18,
    ensures
        r@ == face_occlusion(f as int, d@),
{
    let r = if f == 0 {
        vec![d[7], d[7], false, false, d[7], false]
    } else if f == 1 {
        vec![d[9], d[9], false, false, d[9], false]
    } else if f == 2 {
        vec![d[8] || d[10], d[6] || d[10], d[8] || d[12], d[8] || d[12], d[6] || d[10], d[6] || d[12]]
    } else if f == 3 {
        vec![d[9] || d[13], d[7] || d[13], d[9] || d[11], d[9] || d[11], d[7] || d[13], d[7] || d[11]]
    } else if f == 4 {
        vec![d[11], d[11], false, false, d[11], false]
    } else {
        vec![d[13], d[13], false, false, d[13], false]
    };
    assert(r@ =~= face_occlusion(f as int, d@));
    r
}

/// The coordinates of the `i`-th cell in x-major, then y, then z order.
pub open spec fn cell_coords(i: int) -> (int, int, int) {
    (i / 256, (i / 16) % 16, i % 16)
}

/// The chunk at `c` with the given cell may be rendered: every block with
/// a visible face has a registered definition that names a texture for it.
pub open spec fn renderable(chunk: Seq<i8>, chunks: Map<Position, Vec<i8>>, blocks: Seq<BlockDefinition>, c: Position) -> bool {
    forall|i: int, f: int| 0 <= i < 4096 && 0 <= f < 6 && chunk[i] != 0
        && !#[trigger] directions(chunk, chunks, cell_coords(i).0, cell_coords(i).1, cell_coords(i).2, c)[f]
        ==> 1 <= chunk[i] <= blocks.len() && f < blocks[chunk[i] - 1].sides@.len()
}

/// The vertices of face `f` of cell `i`: none where the face is covered.
pub open spec fn face_part(chunk: Seq<i8>, chunks: Map<Position, Vec<i8>>, blocks: Seq<BlockDefinition>, c: Position, i: int, f: int) -> Seq<MeshVertex> {
    let (x, y, z) = cell_coords(i);
    let d = directions(chunk, chunks, x, y, z, c);
    if d[f] {
        Seq::empty()
    } else {
        face_vertices(f, (2 * x, 2 * y, 2 * z), blocks[chunk[i] - 1].sides@[f], face_occlusion(f, d))
    }
}

/// The vertices of the first `n` faces of cell `i`.
pub open spec fn cell_faces(chunk: Seq<i8>, chunks: Map<Position, Vec<i8>>, blocks: Seq<BlockDefinition>, c: Position, i: int, n: int) -> Seq<MeshVertex>
    decreases n,
{
    if n <= 0 {
        Seq::empty()
    } else {
        cell_faces(chunk, chunks, blocks, c, i, n - 1) + face_part(chunk, chunks, blocks, c, i, n - 1)
    }
}

/// The vertices of cell `i`: nothing for air, else its uncovered faces.
pub open spec fn cell_mesh(chunk: Seq<i8>, chunks: Map<Position, Vec<i8>>, blocks: Seq<BlockDefinition>, c: Position, i: int) -> Seq<MeshVertex> {
    if chunk[i] == 0 {
        Seq::empty()
    } else {
        cell_faces(chunk, chunks, blocks, c, i, 6)
    }
}

/// The vertices of the first `n` cells of the chunk.
pub open spec fn chunk_mesh(chunk: Seq<i8>, chunks: Map<Position, Vec<i8>>, blocks: Seq<BlockDefinition>, c: Position, n: int) -> Seq<MeshVertex>
    decreases n,
{
    if n <= 0 {
        Seq::empty()
    } else {
        chunk_mesh(chunk, chunks, blocks, c, n - 1) + cell_mesh(chunk, chunks, blocks, c, n - 1)
    }
}

/// A chunk whose first `n` cells are all air has no vertices for them.
pub proof fn lemma_air_has_no_mesh(chunk: Seq<i8>, chunks: Map<Position, Vec<i8>>, blocks: Seq<BlockDefinition>, c: Position, n: int)
    requires
        forall|i: int| 0 <= i < n ==> #[trigger] chunk[i] == 0,
    ensures
        chunk_mesh(chunk, chunks, blocks, c, n) == Seq::<MeshVertex>::empty(),
    decreases n,
{
    if n > 0 {
        lemma_air_has_no_mesh(chunk, chunks, blocks, c, n - 1);
        assert(chunk[n - 1] == 0);
        assert(chunk_mesh(chunk, chunks, blocks, c, n) =~= Seq::<MeshVertex>::empty());
    }
}

proof fn lemma_cell_faces_whole(chunk: Seq<i8>, chunks: Map<Position, Vec<i8>>, blocks: Seq<BlockDefinition>, c: Position, i: int, n: int)
    ensures
        cell_faces(chunk, chunks, blocks, c, i, n).len() % 6 == 0,
    decreases n,
{
    if n > 0 {
        lemma_cell_faces_whole(chunk, chunks, blocks, c, i, n - 1);
    }
}

/// A chunk mesh is made of whole faces: six vertices (two triangles) each.
pub proof fn lemma_mesh_whole_faces(chunk: Seq<i8>, chunks: Map<Position, Vec<i8>>, blocks: Seq<BlockDefinition>, c: Position, n: int)
    ensures
        chunk_mesh(chunk, chunks, blocks, c, n).len() % 6 == 0,
    decreases n,
{
    if n > 0 {
        lemma_mesh_whole_faces(chunk, chunks, blocks, c, n - 1);
        lemma_cell_faces_whole(chunk, chunks, blocks, c, n - 1, 6);
    }
}

/// How many of the first `n` faces of cell `i` are not covered by a
/// neighbour.
pub open spec fn uncovered_faces(chunk: Seq<i8>, chunks: Map<Position, Vec<i8>>, c: Position, i: int, n: int) -> int
    decreases n,
{
    if n <= 0 {
        0
    } else {
        let (x, y, z) = cell_coords(i);
        uncovered_faces(chunk, chunks, c, i, n - 1)
            + if directions(chunk, chunks, x, y, z, c)[n - 1] { 0int } else { 1int }
    }
}

proof fn lemma_cell_faces_count(chunk: Seq<i8>, chunks: Map<Position, Vec<i8>>, blocks: Seq<BlockDefinition>, c: Position, i: int, n: int)
    ensures
        cell_faces(chunk, chunks, blocks, c, i, n).len() == 6 * uncovered_faces(chunk, chunks, c, i, n),
    decreases n,
{
    if n > 0 {
        lemma_cell_faces_count(chunk, chunks, blocks, c, i, n - 1);
    }
}

/// A block adds six vertices (two triangles) for each of its six faces that
/// no neighbour covers, and air adds none.
pub proof fn lemma_cell_mesh_face_count(chunk: Seq<i8>, chunks: Map<Position, Vec<i8>>, blocks: Seq<BlockDefinition>, c: Position, i: int)
    ensures
        cell_mesh(chunk, chunks, blocks, c, i).len() == if chunk[i] == 0 { 0 } else { 6 * uncovered_faces(chunk, chunks, c, i, 6) },
{
    lemma_cell_faces_count(chunk, chunks, blocks, c, i, 6);
}

/// How many faces the first `n` cells of the chunk show: for each block, its
/// faces that no neighbour covers; none for air.
pub open spec fn chunk_face_count(chunk: Seq<i8>, chunks: Map<Position, Vec<i8>>, c: Position, n: int) -> int
    decreases n,
{
    if n <= 0 {
        0
    } else {
        chunk_face_count(chunk, chunks, c, n - 1)
            + if chunk[n - 1] == 0 { 0int } else { uncovered_faces(chunk, chunks, c, n - 1, 6) }
    }
}

/// A chunk mesh holds six vertices (two triangles) for every face its
/// blocks show, and nothing else.
pub proof fn lemma_chunk_mesh_face_count(chunk: Seq<i8>, chunks: Map<Position, Vec<i8>>, blocks: Seq<BlockDefinition>, c: Position, n: int)
    ensures
        chunk_mesh(chunk, chunks, blocks, c, n).len() == 6 * chunk_face_count(chunk, chunks, c, n),
    decreases n,
{
    if n > 0 {
        lemma_chunk_mesh_face_count(chunk, chunks, blocks, c, n - 1);
        lemma_cell_mesh_face_count(chunk, chunks, blocks, c, n - 1);
    }
}

/// `s` is a run of whole faces: six vertices each, from the start, the six
/// of a face sharing one normal.
pub open spec fn face_runs(s: Seq<MeshVertex>) -> bool {
    &&& s.len() % 6 == 0
    &&& forall|t: int, v: int| 0 <= t && 0 <= v < 6 && 6 * t + v < s.len()
        ==> #[trigger] s[6 * t + v].normal == s[6 * t].normal
}

proof fn lemma_face_runs_concat(a: Seq<MeshVertex>, b: Seq<MeshVertex>)
    requires
        face_runs(a),
        face_runs(b),
    ensures
        face_runs(a + b),
{
    let m = a.len() / 6;
    assert(a.len() == 6 * m);
    assert((a + b).len() % 6 == 0) by {
        assert(b.len() == 6 * (b.len() / 6));
        assert((a + b).len() == 6 * (m + b.len() / 6));
    }
    assert forall|t: int, v: int| 0 <= t && 0 <= v < 6 && 6 * t + v < (a + b).len()
        implies #[trigger] (a + b)[6 * t + v].normal == (a + b)[6 * t].normal by {
        if t < m {
            assert(6 * t + v < a.len());
            assert(a[6 * t + v].normal == a[6 * t].normal);
        } else {
            let u = t - m;
            assert(6 * t + v - a.len() == 6 * u + v);
            assert(6 * t - a.len() == 6 * u);
            assert(b[6 * u + v].normal == b[6 * u].normal);
        }
    }
}

proof fn lemma_cell_face_runs(chunk: Seq<i8>, chunks: Map<Position, Vec<i8>>, blocks: Seq<BlockDefinition>, c: Position, i: int, n: int)
    ensures
        face_runs(cell_faces(chunk, chunks, blocks, c, i, n)),
    decreases n,
{
    if n > 0 {
        lemma_cell_face_runs(chunk, chunks, blocks, c, i, n - 1);
        let part = face_part(chunk, chunks, blocks, c, i, n - 1);
        assert(face_runs(part)) by {
            assert forall|t: int, v: int| 0 <= t && 0 <= v < 6 && 6 * t + v < part.len()
                implies #[trigger] part[6 * t + v].normal == part[6 * t].normal by {
                assert(t == 0);
            }
        }
        lemma_face_runs_concat(cell_faces(chunk, chunks, blocks, c, i, n - 1), part);
    } else {
        assert(cell_faces(chunk, chunks, blocks, c, i, n).len() == 0);
    }
}

/// A chunk mesh is a run of whole faces: every six vertices, from the start,
/// make one face and share its normal.
pub proof fn lemma_chunk_mesh_face_runs(chunk: Seq<i8>, chunks: Map<Position, Vec<i8>>, blocks: Seq<BlockDefinition>, c: Position, n: int)
    ensures
        face_runs(chunk_mesh(chunk, chunks, blocks, c, n)),
    decreases n,
{
    if n > 0 {
        lemma_chunk_mesh_face_runs(chunk, chunks, blocks, c, n - 1);
        let cell_part = cell_mesh(chunk, chunks, blocks, c, n - 1);
        if chunk[n - 1] != 0 {
            lemma_cell_face_runs(chunk, chunks, blocks, c, n - 1, 6);
        } else {
            assert(cell_part.len() == 0);
        }
        lemma_face_runs_concat(chunk_mesh(chunk, chunks, blocks, c, n - 1), cell_part);
    } else {
        assert(chunk_mesh(chunk, chunks, blocks, c, n).len() == 0);
    }
}

/// The chunk position stays clear of the ends of `i64`, so that stepping to
/// a neighbouring chunk cannot overflow.
pub open spec fn position_interior(c: Position) -> bool {
    &&& i64::MIN < c.0 < i64::MAX
    &&& i64::MIN < c.1 < i64::MAX
    &&& i64::MIN < c.2 < i64::MAX
}

pub proof fn lemma_cell_coords(i: int)
    requires
        0 <= i < 4096,
    ensures
        0 <= cell_coords(i).0 < 16,
        0 <= cell_coords(i).1 < 16,
        0 <= cell_coords(i).2 < 16,
        cell(16, cell_coords(i).0, cell_coords(i).1, cell_coords(i).2) == i,
{
    let x = i / 256;
    let y = (i / 16) % 16;
    let z = i % 16;
    assert(x * 16 * 16 + y * 16 + z == i) by (nonlinear_arith)
        requires 0 <= i < 4096, x == i / 256, y == (i / 16) % 16, z == i % 16;
}

/// The covered-flags of cell (x, y, z), in the order `neighbour_offset` gives.
fn directions_exec(chunk: &Vec<i8>, world_data: &WorldData, x: i64, y: i64, z: i64, cx: i64, cy: i64, cz: i64) -> (d: Vec<bool>)
    requires
        world_data.chunks.wf(),
        chunk@.len() >= volume(16),
        neighbours_sized(world_data.chunks@, (cx, cy, cz), 16),
        position_interior((cx, cy, cz)),
        0 <= x < 16,
        0 <= y < 16,
        0 <= z < 16,
    ensures
        d@ == directions(chunk@, world_data.chunks@, x as int, y as int, z as int, (cx, cy, cz)),
{
    let mut d: Vec<bool> = Vec::new();
    let mut k: usize = 0;
    while k < 18
        invariant
            world_data.chunks.wf(),
            chunk@.len() >= volume(16),
            neighbours_sized(world_data.chunks@, (cx, cy, cz), 16),
            position_interior((cx, cy, cz)),
            0 <= x < 16,
            0 <= y < 16,
            0 <= z < 16,
            k <= 18,
            d@ == directions(chunk@, world_data.chunks@, x as int, y as int, z as int, (cx, cy, cz)).take(k as int),
        decreases 18 - k,
    {
        let o = neighbour_offset_exec(k);
        proof { lemma_lookup_in_range(16, chunk@, world_data.chunks@, (x + o.0) as int, (y + o.1) as int, (z + o.2) as int, (cx, cy, cz)); }
        let b = get_block(chunk, x + o.0, y + o.1, z + o.2, world_data, cx, cy, cz);
        let covered_k = if k < 6 { b != 0 } else { b > 0 };
        proof {
            let ds = directions(chunk@, world_data.chunks@, x as int, y as int, z as int, (cx, cy, cz));
            assert(ds[k as int] == covered_k);
            assert(ds.take(k as int + 1) =~= ds.take(k as int).push(covered_k));
        }
        d.push(covered_k);
        k = k + 1;
    }
    proof {
        let ds = directions(chunk@, world_data.chunks@, x as int, y as int, z as int, (cx, cy, cz));
        assert(ds.take(18) =~= ds);
    }
    d
}

/// Builds the mesh of the chunk at (cx, cy, cz): for every block, in x-major,
/// then y, then z order, each face not covered by a neighbour, textured with
/// the block's tile for that face and darkened at corners next to edge
/// neighbours.
pub fn render_chunk(chunk: &Vec<i8>, world_data: &WorldData, chunk_position_x: i64, chunk_position_y: i64, chunk_position_z: i64) -> (m: Mesh)
    requires
        world_data.chunks.wf(),
        chunk@.len() >= volume(16),
        neighbours_sized(world_data.chunks@, (chunk_position_x, chunk_position_y, chunk_position_z), 16),
        position_interior((chunk_position_x, chunk_position_y, chunk_position_z)),
        renderable(chunk@, world_data.chunks@, world_data.blocks@, (chunk_position_x, chunk_position_y, chunk_position_z)),
    ensures
        m.wf(),
        m@ == chunk_mesh(chunk@, world_data.chunks@, world_data.blocks@, (chunk_position_x, chunk_position_y, chunk_position_z), 4096),
{
    let ghost c: Position = (chunk_position_x, chunk_position_y, chunk_position_z);
    let ghost chunks = world_data.chunks@;
    let ghost blocks = world_data.blocks@;
    let mut mesh = Mesh::new();
    let mut i: usize = 0;
    while i < 4096
        invariant
            world_data.chunks.wf(),
            chunk@.len() >= volume(16),
            neighbours_sized(world_data.chunks@, c, 16),
            position_interior(c),
            c == (chunk_position_x, chunk_position_y, chunk_position_z),
            chunks == world_data.chunks@,
            blocks == world_data.blocks@,
            renderable(chunk@, chunks, blocks, c),
            i <= 4096,
            mesh.wf(),
            mesh@ == chunk_mesh(chunk@, chunks, blocks, c, i as int),
        decreases 4096 - i,
    {
        proof { lemma_cell_coords(i as int); }
        let x = (i / 256) as i64;
        let y = ((i / 16) % 16) as i64;
        let z = (i % 16) as i64;
        proof { lemma_lookup_in_range(16, chunk@, world_data.chunks@, x as int, y as int, z as int, c); }
        let block_id = get_block(chunk, x, y, z, world_data, chunk_position_x, chunk_position_y, chunk_position_z);
        assert(block_id == chunk@[i as int]);
        if block_id != 0 {
            let dirs = directions_exec(chunk, world_data, x, y, z, chunk_position_x, chunk_position_y, chunk_position_z);
            let ghost prefix = mesh@;
            let mut f: usize = 0;
            while f < 6
                invariant
                    world_data.chunks.wf(),
                    chunks == world_data.chunks@,
                    blocks == world_data.blocks@,
                    renderable(chunk@, chunks, blocks, c),
                    i < 4096,
                    f <= 6,
                    (x, y, z) == (cell_coords(i as int).0 as i64, cell_coords(i as int).1 as i64, cell_coords(i as int).2 as i64),
                    0 <= x < 16,
                    0 <= y < 16,
                    0 <= z < 16,
                    chunk@.len() >= volume(16),
                    block_id == chunk@[i as int],
                    block_id != 0,
                    dirs@ == directions(chunk@, chunks, x as int, y as int, z as int, c),
                    mesh.wf(),
                    mesh@ == prefix + cell_faces(chunk@, chunks, blocks, c, i as int, f as int),
                decreases 6 - f,
            {
                if !dirs[f] {
                    proof {
                        let (cx0, cy0, cz0) = cell_coords(i as int);
                        assert(!directions(chunk@, chunks, cx0, cy0, cz0, c)[f as int]);
                    }
                    let occluded = face_occlusion_exec(f, &dirs);
                    let tile = world_data.blocks[(block_id - 1) as usize].sides[f];
                    push_face(&mut mesh, f, (2 * x) as i8, (2 * y) as i8, (2 * z) as i8, tile, &occluded);
                }
                proof {
                    assert(mesh@ =~= prefix + cell_faces(chunk@, chunks, blocks, c, i as int, f as int + 1));
                }
                f = f + 1;
            }
            proof {
                assert(mesh@ =~= chunk_mesh(chunk@, chunks, blocks, c, i as int + 1));
            }
        } else {
            proof {
                assert(mesh@ =~= chunk_mesh(chunk@, chunks, blocks, c, i as int + 1));
            }
        }
        i = i + 1;
    }
    mesh
}

/// The chunk coordinate keeps every world coordinate of its cells within
/// the range of `i64`.
pub open spec fn chunk_coord_fits(c: i64) -> bool {
    -0x800_0000_0000_0000 <= c < 0x800_0000_0000_0000
}

/// Every name that generation of the chunk at `c` places is registered.
pub open spec fn terrain_names_registered(input: TerrainInput, world: WorldData, c: Position) -> bool {
    &&& forall|i: int| 0 <= i < 4096 && #[trigger] input.rule(c, i) is Some ==> world.block_index@.contains_key(input.rule(c, i)->0)
    &&& forall|i: int| 0 <= i < 4096 && #[trigger] input.tree_base(c, i) ==> world.block_index@.contains_key(oak_log_name())
}

/// The chunk after the first `n` cells have been generated.
pub open spec fn generated_prefix(input: TerrainInput, world: WorldData, c: Position, n: int, j: int) -> i8 {
    if j < n {
        generated_cell(input, world, c, j)
    } else if exists|k: int| 1 <= k < 5 && k <= cell_coords(j).1 && j - 16 * k < n && #[trigger] input.tree_base(c, j - 16 * k) {
        world.block_index@[oak_log_name()] as i8
    } else {
        0
    }
}

fn outside_clearing_exec(px: i64, py: i64, pz: i64) -> (r: bool)
    ensures
        r == outside_clearing(px as int, py as int, pz as int),
{
    let dy = py as i128 - 16;
    if px < -10 || px > 10 || dy < -10 || dy > 10 || pz < -10 || pz > 10 {
        assert(outside_clearing(px as int, py as int, pz as int)) by (nonlinear_arith)
            requires px < -10 || px > 10 || dy < -10 || dy > 10 || pz < -10 || pz > 10, dy == py - 16;
        return true;
    }
    let x = px as i128;
    let z = pz as i128;
    assert(0 <= x * x <= 100 && 0 <= dy * dy <= 100 && 0 <= z * z <= 100) by (nonlinear_arith)
        requires -10 <= x <= 10, -10 <= dy <= 10, -10 <= z <= 10;
    x * x + dy * dy + z * z > 100
}

fn lookup_id(world_data: &WorldData, name: &str) -> (id: usize)
    requires
        world_data.block_index@.contains_key(name@),
    ensures
        id == world_data.block_index@[name@],
{
    match world_data.block_index.get(name) {
        Some(id) => *id,
        None => 0,
    }
}

/// Cell `j` is one of the first `k` trunk cells above cell `i` (at height
/// `y`) that lie inside the chunk.
pub open spec fn trunk_written(i: int, y: int, k: int, j: int) -> bool {
    &&& i <= j
    &&& (j - i) % 16 == 0
    &&& (j - i) / 16 < k
    &&& y + (j - i) / 16 <= 15
}

proof fn lemma_column_up(i: int, m: int)
    requires
        0 <= i < 4096,
        0 <= m,
        cell_coords(i).1 + m <= 15,
    ensures
        0 <= i + 16 * m < 4096,
        cell_coords(i + 16 * m) == (cell_coords(i).0, cell_coords(i).1 + m, cell_coords(i).2),
{
    let x = i / 256;
    let y = (i / 16) % 16;
    let z = i % 16;
    let j = i + 16 * m;
    assert(i == x * 256 + y * 16 + z) by (nonlinear_arith)
        requires 0 <= i < 4096, x == i / 256, y == (i / 16) % 16, z == i % 16;
    assert(j == x * 256 + (y + m) * 16 + z);
    assert(j / 256 == x && (j / 16) % 16 == y + m && j % 16 == z) by (nonlinear_arith)
        requires j == x * 256 + (y + m) * 16 + z, 0 <= x < 16, 0 <= y + m < 16, 0 <= z < 16;
}

proof fn lemma_column_down(j: int, k: int)
    requires
        0 <= j < 4096,
        0 <= k <= cell_coords(j).1,
    ensures
        0 <= j - 16 * k < 4096,
        cell_coords(j - 16 * k) == (cell_coords(j).0, cell_coords(j).1 - k, cell_coords(j).2),
{
    let x = j / 256;
    let y = (j / 16) % 16;
    let z = j % 16;
    let i = j - 16 * k;
    assert(j == x * 256 + y * 16 + z) by (nonlinear_arith)
        requires 0 <= j < 4096, x == j / 256, y == (j / 16) % 16, z == j % 16;
    assert(i == x * 256 + (y - k) * 16 + z);
    assert(i / 256 == x && (i / 16) % 16 == y - k && i % 16 == z) by (nonlinear_arith)
        requires i == x * 256 + (y - k) * 16 + z, 0 <= x < 16, 0 <= y - k < 16, 0 <= z < 16;
}

/// Generates cell `i`: its rule, and the trunk of a tree starting there.
#[verifier::rlimit(60)]
fn generate_cell(chunk: &mut Vec<i8>, input: &TerrainInput, world_data: &WorldData, cx: i64, cy: i64, cz: i64, i: usize)
    requires
        input.wf(),
        i < 4096,
        chunk_coord_fits(cx),
        chunk_coord_fits(cy),
        chunk_coord_fits(cz),
        terrain_names_registered(*input, *world_data, (cx, cy, cz)),
        old(chunk)@.len() == 4096,
        forall|j: int| 0 <= j < 4096 ==> #[trigger] old(chunk)@[j] == generated_prefix(*input, *world_data, (cx, cy, cz), i as int, j),
    ensures
        final(chunk)@.len() == 4096,
        forall|j: int| 0 <= j < 4096 ==> #[trigger] final(chunk)@[j] == generated_prefix(*input, *world_data, (cx, cy, cz), i as int + 1, j),
{
    let ghost c: Position = (cx, cy, cz);
    let ghost world = *world_data;
    proof { lemma_cell_coords(i as int); }
    let x = (i / 256) as i64;
    let y = ((i / 16) % 16) as i64;
    let z = (i % 16) as i64;
    let px = x + 16 * cx;
    let py = y + 16 * cy;
    let pz = z + 16 * cz;
    let h = input.heights[(x * 16 + z) as usize];
    let hw = h as i128;
    let pyw = py as i128;
    let ghost old_chunk = chunk@;
    let ghost oak = world.block_index@[oak_log_name()] as i8;
    let mut rule_id: Option<i8> = None;
    let mut tree = false;
    if outside_clearing_exec(px, py, pz) {
        if pyw > hw - 4 && pyw < hw {
            assert(input.rule(c, i as int) == Some(dirt_name()));
            let id = lookup_id(world_data, "dirt");
            rule_id = Some(id as i8);
        } else if pyw < hw {
            assert(input.rule(c, i as int) == Some(stone_name()));
            let id = lookup_id(world_data, "stone");
            rule_id = Some(id as i8);
        } else if pyw == hw {
            if input.grass[i] {
                assert(input.rule(c, i as int) == Some(grass_1_name()));
                let id = lookup_id(world_data, "grass_1");
                rule_id = Some(id as i8);
            } else {
                assert(input.rule(c, i as int) == Some(grass_2_name()));
                let id = lookup_id(world_data, "grass_2");
                rule_id = Some(id as i8);
            }
        } else if pyw == hw + 1 {
            tree = input.tree[i];
        }
    }
    assert(tree == input.tree_base(c, i as int));
    assert(match rule_id {
        Some(v) => input.rule(c, i as int) is Some && v == world.block_index@[input.rule(c, i as int)->0] as i8,
        None => input.rule(c, i as int) is None,
    });
    match rule_id {
        Some(v) => { chunk.set(i, v); },
        None => {},
    }
    let ghost mid_chunk = chunk@;
    if tree {
        let id = lookup_id(world_data, "oak_log");
        let mut k: usize = 0;
        while k < 5
            invariant
                i < 4096,
                k <= 5,
                0 <= y < 16,
                y == cell_coords(i as int).1,
                id as i8 == oak,
                chunk@.len() == 4096,
                mid_chunk.len() == 4096,
                forall|j: int| 0 <= j < 4096 ==> #[trigger] chunk@[j] == (
                    if trunk_written(i as int, y as int, k as int, j) { oak } else { mid_chunk[j] }),
            decreases 5 - k,
        {
            if y + (k as i64) <= 15 {
                proof { lemma_column_up(i as int, k as int); }
                let target = i + 16 * k;
                chunk.set(target, id as i8);
            }
            k = k + 1;
        }
    }
    proof {
        assert forall|j: int| 0 <= j < 4096 implies #[trigger] chunk@[j] == generated_prefix(*input, world, c, i as int + 1, j) by {
            lemma_cell_coords(j);
            if j < i {
                assert(!trunk_written(i as int, y as int, 5, j));
            } else if j == i {
                if input.rule(c, i as int) is None && !tree {
                    assert forall|k: int| 0 <= k < 5 && k <= cell_coords(j).1 && #[trigger] input.tree_base(c, j - 16 * k)
                        implies 1 <= k && j - 16 * k < i by {}
                    assert forall|k: int| 1 <= k < 5 && k <= cell_coords(j).1 && j - 16 * k < i && #[trigger] input.tree_base(c, j - 16 * k)
                        implies 0 <= k < 5 && k <= cell_coords(j).1 by {}
                }
                if tree {
                    assert(trunk_written(i as int, y as int, 5, j));
                    assert(input.tree_base(c, j - 16 * 0));
                }
            } else {
                if tree && trunk_written(i as int, y as int, 5, j) {
                    let m = (j - i) / 16;
                    assert(j == i + 16 * m);
                    lemma_column_up(i as int, m);
                    assert(1 <= m < 5 && m <= cell_coords(j).1 && j - 16 * m < i + 1);
                    assert(input.tree_base(c, j - 16 * m));
                } else {
                    assert forall|k: int| 1 <= k < 5 && k <= cell_coords(j).1 && j - 16 * k < i + 1 && #[trigger] input.tree_base(c, j - 16 * k)
                        implies j - 16 * k < i by {
                        if j - 16 * k == i {
                            lemma_column_down(j, k);
                            assert(tree);
                            assert((j - i) / 16 == k);
                            assert(trunk_written(i as int, y as int, 5, j));
                        }
                    }
                }
            }
        }
    }
}

/// Generates the blocks of the 16-cell chunk at (cx, cy, cz) from the
/// column heights and random draws in `input`: each cell holds dirt in the
/// four levels below its column's surface, stone deeper down, grass on the
/// surface, air above; a clearing of radius 10 around (0, 16, 0) stays
/// empty; a tree draw one above the surface raises a five-block oak trunk,
/// cut at the chunk's top.
pub fn generate_chunk(chunk_position_x: i64, chunk_position_y: i64, chunk_position_z: i64, input: &TerrainInput, world_data: &WorldData) -> (chunk: Vec<i8>)
    requires
        input.wf(),
        chunk_coord_fits(chunk_position_x),
        chunk_coord_fits(chunk_position_y),
        chunk_coord_fits(chunk_position_z),
        terrain_names_registered(*input, *world_data, (chunk_position_x, chunk_position_y, chunk_position_z)),
    ensures
        chunk@.len() == 4096,
        forall|i: int| 0 <= i < 4096 ==> #[trigger] chunk@[i] == generated_cell(*input, *world_data, (chunk_position_x, chunk_position_y, chunk_position_z), i),
{
    let ghost c: Position = (chunk_position_x, chunk_position_y, chunk_position_z);
    let mut chunk: Vec<i8> = Vec::new();
    let mut n: usize = 0;
    while n < 4096
        invariant
            n <= 4096,
            chunk@.len() == n,
            forall|j: int| 0 <= j < n ==> #[trigger] chunk@[j] == 0i8,
        decreases 4096 - n,
    {
        chunk.push(0);
        n = n + 1;
    }
    proof {
        assert forall|j: int| 0 <= j < 4096 implies #[trigger] chunk@[j] == generated_prefix(*input, *world_data, c, 0, j) by {
            lemma_cell_coords(j);
            assert forall|k: int| 1 <= k < 5 && k <= cell_coords(j).1 && #[trigger] input.tree_base(c, j - 16 * k) implies j - 16 * k >= 0 by {
                lemma_column_down(j, k);
            }
        }
    }
    let mut i: usize = 0;
    while i < 4096
        invariant
            input.wf(),
            i <= 4096,
            chunk_coord_fits(chunk_position_x),
            chunk_coord_fits(chunk_position_y),
            chunk_coord_fits(chunk_position_z),
            c == (chunk_position_x, chunk_position_y, chunk_position_z),
            terrain_names_registered(*input, *world_data, c),
            chunk@.len() == 4096,
            forall|j: int| 0 <= j < 4096 ==> #[trigger] chunk@[j] == generated_prefix(*input, *world_data, c, i as int, j),
        decreases 4096 - i,
    {
        generate_cell(&mut chunk, input, world_data, chunk_position_x, chunk_position_y, chunk_position_z, i);
        i = i + 1;
    }
    chunk
}

/// The block id at world cell `p` for chunks of edge `side`: the cell's
/// value in its chunk where that chunk is loaded, else -1.
pub open spec fn block_at_cell(chunks: Map<Position, Vec<i8>>, p: Position, side: int) -> i8 {
    let (c, i) = cell_location(p, side);
    if chunks.contains_key(c) { chunks[c]@[i] } else { -1i8 }
}

/// Different world cells lie in different chunks or at different places of
/// the same chunk.
pub proof fn lemma_cell_location_injective(p: Position, q: Position, side: int)
    requires
        side == 16 || side == 32,
        cell_location(p, side) == cell_location(q, side),
    ensures
        p == q,
{
    let (c, i) = cell_location(p, side);
    assert(local_of(p.0 as int, side) == local_of(q.0 as int, side)
        && local_of(p.1 as int, side) == local_of(q.1 as int, side)
        && local_of(p.2 as int, side) == local_of(q.2 as int, side)) by {
        lemma_cell_injective(side, local_of(p.0 as int, side), local_of(p.1 as int, side), local_of(p.2 as int, side),
            local_of(q.0 as int, side), local_of(q.1 as int, side), local_of(q.2 as int, side));
    }
    assert(chunk_of(p.0 as int, side) == chunk_of(q.0 as int, side));
    assert(chunk_of(p.1 as int, side) == chunk_of(q.1 as int, side));
    assert(chunk_of(p.2 as int, side) == chunk_of(q.2 as int, side));
}

/// A block written into world cell `p` (its loaded chunk replaced by a copy
/// with the block at the cell's place) is what a read of `p` gives back, and
/// every other world cell reads as before.
pub proof fn lemma_world_write_then_read(chunks: Map<Position, Vec<i8>>, side: int, p: Position, b: i8, new_chunk: Vec<i8>, q: Position)
    requires
        side == 16 || side == 32,
        sized_at(chunks, cell_location(p, side).0, side),
        chunks.contains_key(cell_location(p, side).0),
        new_chunk@ == chunks[cell_location(p, side).0]@.update(cell_location(p, side).1, b),
    ensures
        block_at_cell(chunks.insert(cell_location(p, side).0, new_chunk), p, side) == b,
        q != p ==> block_at_cell(chunks.insert(cell_location(p, side).0, new_chunk), q, side) == block_at_cell(chunks, q, side),
{
    let (c, i) = cell_location(p, side);
    lemma_cell_bounds(side, local_of(p.0 as int, side), local_of(p.1 as int, side), local_of(p.2 as int, side));
    let (cq, iq) = cell_location(q, side);
    lemma_cell_bounds(side, local_of(q.0 as int, side), local_of(q.1 as int, side), local_of(q.2 as int, side));
    if q != p && cq == c && iq == i {
        lemma_cell_location_injective(p, q, side);
    }
}

/// The block id at world cell (x, y, z), as `block_at_cell` describes. The
/// cell of a world position is its coordinates plus one half, rounded down.
pub fn get_block_global(world_data: &WorldData, x: i64, y: i64, z: i64) -> (b: i8)
    requires
        world_data.chunks.wf(),
        cell_in_range(world_data.chunks@, (x, y, z), 16),
    ensures
        b == block_at_cell(world_data.chunks@, (x, y, z), 16),
{
    let (_c, i, found) = locate_cell(&world_data.chunks, 16, (x, y, z));
    match found {
        Some(chunk) => chunk[i],
        None => -1,
    }
}

} // verus!
